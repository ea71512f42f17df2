use vstd::prelude::*;
use crate::error::RunError;
use crate::foreign::{decode_runs, decode_string, run, runs_decode, total_length, utf16_decode, UTF16_ERROR};
use crate::handshake::{
    payload_of, command_pending, consumed, publish_result, published, take_command, take_sync_token,
    has_bit, MIRROR_AT, SLICE_SIZE, SYNC_TOKEN,
};
use crate::layout::{last_named, MemoryLayout};
use crate::logger::{last_n, Logger, SIZE};
use crate::text::join;

verus! {

/// A host function: its name and its address, which only the host can call.
pub struct NamedFunction {
    pub name: String,
    pub address: usize,
}

/// What the host hands a run: granted module names, host functions, the
/// script's path and the instance id.
pub struct ExternalFunctions {
    pub modules: Vec<String>,
    pub function: Vec<NamedFunction>,
    pub path: String,
    pub machine_id: i32,
}

impl ExternalFunctions {
    /// Decodes the host's tables. `function_keys` and `modules` hold UTF-16
    /// runs one after another, cut by `function_sizes` and `module_sizes` (in
    /// code units); `function_values` holds an address for each function name.
    pub fn new(
        function_keys: &[u16],
        function_values: &[usize],
        function_sizes: &[u16],
        modules: &[u16],
        module_sizes: &[u16],
        path: &[u16],
        machine_id: i32,
    ) -> (r: Result<Self, RunError>)
        requires
            function_values@.len() == function_sizes@.len(),
            total_length(function_sizes@) <= function_keys@.len(),
            total_length(module_sizes@) <= modules@.len(),
        ensures
            r is Ok <==> (utf16_decode(path@) is Some && runs_decode(modules@, module_sizes@) && runs_decode(
                function_keys@,
                function_sizes@,
            )),
            r matches Ok(e) ==> {
                &&& Some(e.path@) == utf16_decode(path@)
                &&& e.machine_id == machine_id
                &&& e.modules@.len() == module_sizes@.len()
                &&& forall|i: int|
                    0 <= i < module_sizes@.len() ==> Some((#[trigger] e.modules@[i])@) == utf16_decode(
                        run(modules@, module_sizes@, i),
                    )
                &&& e.function@.len() == function_sizes@.len()
                &&& forall|i: int|
                    0 <= i < function_sizes@.len() ==> Some((#[trigger] e.function@[i]).name@) == utf16_decode(
                        run(function_keys@, function_sizes@, i),
                    ) && e.function@[i].address == function_values@[i]
            },
            r matches Err(e) ==> (e matches RunError::Decode { message } && message@ == UTF16_ERROR@),
    {
        let path = match decode_string(path) {
            Ok(p) => p,
            Err(message) => {
                return Err(RunError::Decode { message });
            },
        };
        let module_names = match decode_runs(modules, module_sizes) {
            Ok(v) => v,
            Err(message) => {
                return Err(RunError::Decode { message });
            },
        };
        let mut names = match decode_runs(function_keys, function_sizes) {
            Ok(v) => v,
            Err(message) => {
                return Err(RunError::Decode { message });
            },
        };
        let ghost all = names@;
        let n = function_values.len();
        let mut function: Vec<NamedFunction> = Vec::new();
        let mut i: usize = 0;
        while i < n
            invariant
                i <= n,
                n == function_values@.len(),
                all.len() == n,
                names@ == all.subrange(i as int, n as int),
                function@.len() == i,
                forall|k: int|
                    0 <= k < i ==> (#[trigger] function@[k]).name == all[k] && function@[k].address
                        == function_values@[k],
            decreases n - i,
        {
            let name = names.remove(0);
            function.push(NamedFunction { name, address: function_values[i] });
            i = i + 1;
            assert(names@ =~= all.subrange(i as int, n as int));
        }
        Ok(ExternalFunctions { modules: module_names, function, path, machine_id })
    }
}

/// Where the slice of module `name` starts, when the layout has it, it holds at
/// least `need` bytes and those lie within `mem_len` bytes of memory.
pub open spec fn slice_at(layout: MemoryLayout, name: Seq<char>, need: int, mem_len: int) -> Option<usize> {
    let k = last_named(layout.regions@, name);
    if k == -1 {
        None
    } else if layout.regions@[k].size < need || layout.regions@[k].offset + need > mem_len {
        None
    } else {
        Some(layout.regions@[k].offset)
    }
}

/// What a script-level failure of a native function says.
pub const INCORRECT_ARGUMENTS: &'static str = "Incorrect arguments";
/// What `system.run_commands` says when it is given arguments.
pub const TOO_MANY_ARGUMENTS: &'static str = "Too many arguments";
/// What `system.run_commands` says when the `Command` module has no usable slice.
pub const NO_COMMAND_SLICE: &'static str = "No shared memory for module Command";

/// The state of one running engine instance that its native functions act on.
pub struct JSRunnerState {
    pub output: Logger,
    pub layout: MemoryLayout,
    pub external_functions: Vec<NamedFunction>,
    pub id: i32,
}

impl JSRunnerState {
    pub open spec fn wf(&self) -> bool {
        self.output.wf() && self.layout.wf()
    }

    /// A fresh state: an empty log, the granted host functions and the id.
    pub fn new(externals: ExternalFunctions, layout: MemoryLayout) -> (r: Self)
        requires
            layout.wf(),
        ensures
            r.wf(),
            r.output.content() == Seq::<u8>::empty(),
            !r.output.updated,
            r.layout == layout,
            r.external_functions == externals.function,
            r.id == externals.machine_id,
    {
        JSRunnerState {
            output: Logger::new(),
            layout,
            external_functions: externals.function,
            id: externals.machine_id,
        }
    }

    /// Where the slice of module `name` starts.
    pub fn get_offset(&self, name: &str) -> (r: Option<usize>)
        ensures
            r is None <==> last_named(self.layout.regions@, name@) == -1,
            r matches Some(o) ==> o == self.layout.regions@[last_named(self.layout.regions@, name@)].offset,
    {
        self.layout.get_offset(name)
    }

    /// The start of the slice of module `name`, when it holds `need` bytes
    /// within `mem_len` bytes of memory.
    pub fn slice_for(&self, name: &str, need: usize, mem_len: usize) -> (r: Option<usize>)
        ensures
            r == slice_at(self.layout, name@, need as int, mem_len as int),
    {
        match self.layout.find(name) {
            None => None,
            Some(k) => {
                let region = &self.layout.regions[k];
                if region.size < need || region.offset > mem_len || need > mem_len - region.offset {
                    None
                } else {
                    Some(region.offset)
                }
            },
        }
    }

    /// `print(message)`: appends the message and a line break to the log. Any
    /// other number of arguments fails with `Incorrect arguments`.
    pub fn print(&mut self, args: &Vec<String>) -> (r: Result<(), String>)
        requires
            old(self).wf(),
        ensures
            final(self).wf(),
            final(self).layout == old(self).layout,
            r is Ok <==> args@.len() == 1,
            r matches Err(m) ==> m@ == INCORRECT_ARGUMENTS@ && final(self).output == old(self).output,
            r is Ok ==> final(self).output.content() == last_n(
                old(self).output.content() + vstd::utf8::encode_utf8(args@[0]@ + seq!['\n']),
                SIZE as nat,
            ) && final(self).output.updated,
    {
        if args.len() != 1 {
            return Err(String::from_str(INCORRECT_ARGUMENTS));
        }
        let line = join(args[0].as_str(), "\n");
        proof {
            reveal_strlit("\n");
        }
        let text = line.as_str();
        assert(text@ == args@[0]@ + seq!['\n']);
        self.output.log(text);
        Ok(())
    }

    /// `system.run_commands()`: one poll of the `Command` slice. A command that
    /// is there is taken, logged and returned for the engine to run.
    pub fn run_commands(&mut self, arg_count: usize, mem: &mut [u8]) -> (r: Result<Option<Vec<u8>>, String>)
        requires
            old(self).wf(),
        ensures
            final(self).wf(),
            final(self).layout == old(self).layout,
            arg_count != 0 ==> (r matches Err(m) && m@ == TOO_MANY_ARGUMENTS@),
            arg_count == 0 && slice_at(old(self).layout, "Command"@, MIRROR_AT as int, old(mem)@.len() as int)
                is None ==> (r matches Err(m) && m@ == NO_COMMAND_SLICE@),
            r is Err ==> final(mem)@ == old(mem)@ && final(self).output == old(self).output,
            (arg_count == 0 && slice_at(old(self).layout, "Command"@, MIRROR_AT as int, old(mem)@.len() as int)
                is Some) ==> {
                let o = slice_at(old(self).layout, "Command"@, MIRROR_AT as int, old(mem)@.len() as int)->0;
                &&& r is Ok
                &&& (r->Ok_0 is Some <==> command_pending(old(mem)@, o as int))
                &&& (r->Ok_0 matches Some(c) ==> c@ == payload_of(old(mem)@, o as int)
                    && final(mem)@ == consumed(old(mem)@, o as int) && final(self).output.content() == last_n(
                    old(self).output.content() + c@,
                    SIZE as nat,
                ))
                &&& (r->Ok_0 is None ==> final(mem)@ == old(mem)@ && final(self).output == old(self).output)
            },
    {
        if arg_count != 0 {
            return Err(String::from_str(TOO_MANY_ARGUMENTS));
        }
        proof {
            reveal_strlit("Command");
        }
        let offset = match self.slice_for("Command", MIRROR_AT, mem.len()) {
            Some(o) => o,
            None => {
                return Err(String::from_str(NO_COMMAND_SLICE));
            },
        };
        match take_command(mem, offset) {
            Some(command) => {
                self.output.log_bytes(command.as_slice());
                Ok(Some(command))
            },
            None => Ok(None),
        }
    }

    /// The publishing half of `sync()`: mirrors the log into the `Command` slice
    /// and raises the result bit when the log changed. False, with nothing
    /// written, when the `Command` module has no slice large enough.
    pub fn sync_publish(&mut self, mem: &mut [u8]) -> (r: bool)
        requires
            old(self).wf(),
        ensures
            final(self).wf(),
            final(self).layout == old(self).layout,
            r == slice_at(old(self).layout, "Command"@, SLICE_SIZE as int, old(mem)@.len() as int) is Some,
            r ==> final(mem)@ == published(
                old(mem)@,
                slice_at(old(self).layout, "Command"@, SLICE_SIZE as int, old(mem)@.len() as int)->0 as int,
                old(self).output.content(),
                old(self).output.updated,
            ) && final(self).output.buffer == old(self).output.buffer && final(self).output.index
                == old(self).output.index && !final(self).output.updated,
            !r ==> final(mem)@ == old(mem)@ && final(self).output == old(self).output,
    {
        proof {
            reveal_strlit("Command");
        }
        match self.slice_for("Command", SLICE_SIZE, mem.len()) {
            Some(offset) => {
                publish_result(mem, offset, &mut self.output);
                true
            },
            None => false,
        }
    }

    /// The waiting half of `sync()`, one poll: takes the host's token from the
    /// `Sync` slice when it is there. `None` when there is no `Sync` slice.
    pub fn sync_poll(&self, mem: &mut [u8]) -> (r: Option<bool>)
        ensures
            r is None <==> slice_at(self.layout, "Sync"@, 1, old(mem)@.len() as int) is None,
            r matches Some(t) ==> {
                let o = slice_at(self.layout, "Sync"@, 1, old(mem)@.len() as int)->0 as int;
                &&& t == has_bit(old(mem)@[o], SYNC_TOKEN)
                &&& t ==> final(mem)@ == old(mem)@.update(o, old(mem)@[o] & !SYNC_TOKEN)
                &&& !t ==> final(mem)@ == old(mem)@
            },
            r is None ==> final(mem)@ == old(mem)@,
    {
        proof {
            reveal_strlit("Sync");
        }
        match self.slice_for("Sync", 1, mem.len()) {
            Some(offset) => Some(take_sync_token(mem, offset)),
            None => None,
        }
    }

    /// Logs that `$` found no function for `command`.
    pub fn log_unknown_command(&mut self, command: &str)
        requires
            old(self).wf(),
        ensures
            final(self).wf(),
            final(self).layout == old(self).layout,
            final(self).output.content() == last_n(
                old(self).output.content() + vstd::utf8::encode_utf8("Unknown command "@ + command@),
                SIZE as nat,
            ),
    {
        let line = crate::commands::unknown_command_message(command);
        self.output.log(line.as_str());
    }
}

/// The engine's process-wide start-up, which runs once.
pub struct Initializer {
    pub initialized: bool,
}

impl Initializer {
    /// Nothing started yet.
    pub fn new() -> (r: Self)
        ensures
            !r.initialized,
    {
        Initializer { initialized: false }
    }

    /// Whether the start-up is to run now: true the first time only.
    pub fn once(&mut self) -> (r: bool)
        ensures
            r == !old(self).initialized,
            final(self).initialized,
    {
        if self.initialized {
            false
        } else {
            self.initialized = true;
            true
        }
    }
}

} // verus!
