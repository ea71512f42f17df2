use serenity::modules::{
    basic_globals, command_provider, global_provider, providers, select, FunctionEntry, NativeCallback, ObjectEntry,
    Provider,
};

fn names(ps: &[Provider]) -> Vec<Option<String>> {
    ps.iter().map(|p| p.module.clone()).collect()
}

fn extra_provider() -> Provider {
    Provider {
        module: Some("Extra".to_string()),
        functions: vec![FunctionEntry { name: "doExtra".to_string(), callback: NativeCallback::Print }],
        objects: vec![],
    }
}

#[test]
fn registry_lists_providers_in_order() {
    let r = providers();
    assert_eq!(r.len(), 3);
    assert_eq!(r[0], global_provider());
    assert_eq!(r[1], command_provider());
    assert_eq!(r[2], basic_globals());
    assert_eq!(r[0].functions[0].name, "$");
    assert_eq!(r[2].functions[0].name, "print");
    assert_eq!(r[2].functions[1].name, "sync");
}

#[test]
fn select_with_nothing_granted_is_stable() {
    let first = select(providers(), &vec![]);
    let second = select(providers(), &vec![]);
    assert_eq!(first, second);
    assert_eq!(names(&first), vec![None, None]);
    assert_eq!(first[0], global_provider());
    assert_eq!(first[1], basic_globals());
}

#[test]
fn select_again_changes_nothing() {
    let granted = vec!["Command".to_string()];
    let once = select(providers(), &granted);
    let twice = select(select(providers(), &granted), &granted);
    assert_eq!(once, twice);
}

#[test]
fn granted_module_exposes_run_commands_and_no_other() {
    let registry = vec![command_provider(), extra_provider(), basic_globals()];
    let chosen = select(registry, &vec!["Command".to_string()]);
    assert_eq!(chosen.len(), 2);
    assert_eq!(chosen[0].module, Some("Command".to_string()));
    assert_eq!(
        chosen[0].objects,
        vec![ObjectEntry {
            name: "system".to_string(),
            members: vec![FunctionEntry { name: "run_commands".to_string(), callback: NativeCallback::RunCommands }],
        }]
    );
    for p in &chosen {
        assert_ne!(p.module, Some("Extra".to_string()));
        assert!(p.functions.iter().all(|f| f.name != "doExtra"));
    }
}

#[test]
fn ungranted_command_module_is_left_out() {
    let chosen = select(providers(), &vec!["Other".to_string()]);
    assert!(chosen.iter().all(|p| p.module.is_none()));
    assert_eq!(chosen.len(), 2);
}
