use vstd::prelude::*;

verus! {

/// A native function that scripts can reach once its provider is granted.
#[derive(Debug, Clone, Copy, PartialEq, Eq, Structural)]
pub enum NativeCallback {
    /// `$`: runs a named global function with arguments parsed from one string.
    RunCmd,
    /// `system.run_commands`: runs the command the host left in shared memory.
    RunCommands,
    /// `print`: appends a line to the log.
    Print,
    /// `sync`: publishes the log and waits for the host's sync token.
    Sync,
}

/// A function bound under a name.
#[derive(Debug, PartialEq, Eq)]
pub struct FunctionEntry {
    pub name: String,
    pub callback: NativeCallback,
}

/// An object bound under a name, with its member functions.
#[derive(Debug, PartialEq, Eq)]
pub struct ObjectEntry {
    pub name: String,
    pub members: Vec<FunctionEntry>,
}

/// A bundle of globals. One without a module is always loaded; one with a
/// module is loaded only where that module is granted.
#[derive(Debug, PartialEq, Eq)]
pub struct Provider {
    pub module: Option<String>,
    pub functions: Vec<FunctionEntry>,
    pub objects: Vec<ObjectEntry>,
}

/// Whether a provider of `module` is loaded under the granted names `permitted`.
pub open spec fn permits(module: Option<String>, permitted: Seq<String>) -> bool {
    match module {
        None => true,
        Some(m) => exists|j: int| 0 <= j < permitted.len() && (#[trigger] permitted[j])@ == m@,
    }
}

/// The providers of `registry` that `permitted` grants, in registry order.
pub open spec fn select_spec(registry: Seq<Provider>, permitted: Seq<String>) -> Seq<Provider>
    decreases registry.len(),
{
    if registry.len() == 0 {
        Seq::empty()
    } else {
        let rest = select_spec(registry.drop_last(), permitted);
        if permits(registry.last().module, permitted) {
            rest.push(registry.last())
        } else {
            rest
        }
    }
}

/// Whether `name` is one of `permitted`.
fn is_granted(name: &String, permitted: &Vec<String>) -> (r: bool)
    ensures
        r == exists|j: int| 0 <= j < permitted@.len() && (#[trigger] permitted@[j])@ == name@,
{
    let mut j: usize = 0;
    while j < permitted.len()
        invariant
            j <= permitted@.len(),
            forall|k: int| 0 <= k < j ==> (#[trigger] permitted@[k])@ != name@,
        decreases permitted@.len() - j,
    {
        if name.eq(&permitted[j]) {
            return true;
        }
        j = j + 1;
    }
    false
}

/// Keeps the providers that `permitted` grants, in registry order: every one
/// without a module, and every one whose module is named in `permitted`.
pub fn select(registry: Vec<Provider>, permitted: &Vec<String>) -> (r: Vec<Provider>)
    ensures
        r@ == select_spec(registry@, permitted@),
{
    let ghost all = registry@;
    let mut rest = registry;
    let mut out: Vec<Provider> = Vec::new();
    let ghost mut i: int = 0;
    while rest.len() > 0
        invariant
            0 <= i <= all.len(),
            rest@ == all.subrange(i, all.len() as int),
            out@ == select_spec(all.subrange(0, i), permitted@),
        decreases rest@.len(),
    {
        let p = rest.remove(0);
        assert(all.subrange(0, i + 1).drop_last() =~= all.subrange(0, i));
        assert(p == all[i]);
        let keep = match &p.module {
            None => true,
            Some(m) => is_granted(m, permitted),
        };
        if keep {
            out.push(p);
        }
        proof {
            i = i + 1;
        }
        assert(rest@ =~= all.subrange(i, all.len() as int));
    }
    assert(all.subrange(0, i) =~= all);
    out
}

/// Selecting again from a selection changes nothing.
pub proof fn lemma_select_idempotent(registry: Seq<Provider>, permitted: Seq<String>)
    ensures
        select_spec(select_spec(registry, permitted), permitted) == select_spec(registry, permitted),
    decreases registry.len(),
{
    if registry.len() > 0 {
        lemma_select_idempotent(registry.drop_last(), permitted);
        let rest = select_spec(registry.drop_last(), permitted);
        if permits(registry.last().module, permitted) {
            assert(rest.push(registry.last()).drop_last() =~= rest);
        }
    }
}

/// Every selected provider is granted, and each provider of the registry that is
/// granted is selected.
pub proof fn lemma_select_members(registry: Seq<Provider>, permitted: Seq<String>)
    ensures
        forall|k: int| 0 <= k < select_spec(registry, permitted).len()
            ==> permits(#[trigger] select_spec(registry, permitted)[k].module, permitted),
        forall|k: int| 0 <= k < registry.len() && permits(#[trigger] registry[k].module, permitted)
            ==> select_spec(registry, permitted).contains(registry[k]),
    decreases registry.len(),
{
    if registry.len() > 0 {
        let prev = registry.drop_last();
        lemma_select_members(prev, permitted);
        let rest = select_spec(prev, permitted);
        let s = select_spec(registry, permitted);
        assert forall|k: int| 0 <= k < s.len() implies permits(#[trigger] s[k].module, permitted) by {
            if k < rest.len() {
                assert(s[k] == rest[k]);
            }
        }
        assert forall|k: int| 0 <= k < registry.len() && permits(#[trigger] registry[k].module, permitted)
            implies s.contains(registry[k]) by {
            if k < prev.len() {
                assert(prev[k] == registry[k]);
                let w = choose|w: int| 0 <= w < rest.len() && rest[w] == prev[k];
                assert(s[w] == rest[w]);
            } else {
                assert(s[s.len() - 1] == registry[k]);
            }
        }
    }
}

/// One named function.
fn entry(name: &str, callback: NativeCallback) -> (r: FunctionEntry)
    ensures
        r.name@ == name@,
        r.callback == callback,
{
    FunctionEntry { name: String::from_str(name), callback }
}

/// The always-loaded provider of `$`, which runs a named global function.
pub fn global_provider() -> (r: Provider)
    ensures
        r.module is None,
        r.functions@.len() == 1,
        r.functions@[0].name@ == "$"@,
        r.functions@[0].callback == NativeCallback::RunCmd,
        r.objects@.len() == 0,
{
    let mut functions: Vec<FunctionEntry> = Vec::new();
    functions.push(entry("$", NativeCallback::RunCmd));
    Provider { module: None, functions, objects: Vec::new() }
}

/// The provider of the `Command` module: `system.run_commands`.
pub fn command_provider() -> (r: Provider)
    ensures
        r.module is Some,
        r.module->0@ == "Command"@,
        r.functions@.len() == 0,
        r.objects@.len() == 1,
        r.objects@[0].name@ == "system"@,
        r.objects@[0].members@.len() == 1,
        r.objects@[0].members@[0].name@ == "run_commands"@,
        r.objects@[0].members@[0].callback == NativeCallback::RunCommands,
{
    let mut members: Vec<FunctionEntry> = Vec::new();
    members.push(entry("run_commands", NativeCallback::RunCommands));
    let mut objects: Vec<ObjectEntry> = Vec::new();
    objects.push(ObjectEntry { name: String::from_str("system"), members });
    Provider { module: Some(String::from_str("Command")), functions: Vec::new(), objects }
}

/// The always-loaded provider of `print` and `sync`.
pub fn basic_globals() -> (r: Provider)
    ensures
        r.module is None,
        r.functions@.len() == 2,
        r.functions@[0].name@ == "print"@,
        r.functions@[0].callback == NativeCallback::Print,
        r.functions@[1].name@ == "sync"@,
        r.functions@[1].callback == NativeCallback::Sync,
        r.objects@.len() == 0,
{
    let mut functions: Vec<FunctionEntry> = Vec::new();
    functions.push(entry("print", NativeCallback::Print));
    functions.push(entry("sync", NativeCallback::Sync));
    Provider { module: None, functions, objects: Vec::new() }
}

/// The registry: every provider, in the order their globals are bound.
pub fn providers() -> (r: Vec<Provider>)
    ensures
        r@.len() == 3,
        r@[0].module is None && r@[0].functions@.len() == 1 && r@[0].functions@[0].name@ == "$"@,
        r@[1].module is Some && r@[1].module->0@ == "Command"@,
        r@[1].objects@.len() == 1 && r@[1].objects@[0].name@ == "system"@,
        r@[1].objects@[0].members@.len() == 1,
        r@[1].objects@[0].members@[0].name@ == "run_commands"@,
        r@[2].module is None && r@[2].functions@.len() == 2,
        r@[2].functions@[0].name@ == "print"@ && r@[2].functions@[1].name@ == "sync"@,
{
    let mut r: Vec<Provider> = Vec::new();
    r.push(global_provider());
    r.push(command_provider());
    r.push(basic_globals());
    r
}

} // verus!
