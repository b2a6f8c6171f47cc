//! The virtual machine: it runs a list of commands, in order, against a
//! storage.
use vstd::prelude::*;
use crate::command::{Command, CommandResult, CommandResultView, CommandView, commands_of};
use crate::file_io::FileFormat;
use crate::storage::{Storage, StorageView};
use crate::table::{Table, TableView, clone_names, names_of};
use crate::table_impl::{load_table, table_path};

verus! {

/// What a run says when it was given no command.
pub open spec fn empty_run_message() -> Seq<char> {
    "Empty command FIFO"@
}

/// The outcome of running `commands` against `storage`, `last` being the
/// table that the commands before them gave.
///
/// `SelectFrom` loads a table. If the load fails, the run ends at once with
/// the error's text; else the table is kept and the run goes on. `Stub` ends
/// the run at once with a success that carries nothing. At the end of the
/// list the run gives the table that was loaded last; a run that loaded none
/// is an error.
pub open spec fn run(
    commands: Seq<CommandView>,
    storage: StorageView,
    last: Option<TableView>,
) -> CommandResultView
    decreases commands.len(),
{
    if commands.len() == 0 {
        match last {
            Some(table) => CommandResultView::RetrievedDataSuccess(table),
            None => CommandResultView::Error(empty_run_message()),
        }
    } else {
        match commands[0] {
            CommandView::Stub => CommandResultView::VoidSuccess,
            CommandView::SelectFrom(columns, table) => match load_table(
                table,
                columns,
                FileFormat::SimpleColumnar,
                storage,
            ) {
                Err(e) => CommandResultView::Error(e.message()),
                Ok(loaded) => run(commands.skip(1), storage, Some(loaded)),
            },
        }
    }
}

/// **Empty command list.** A run of no command fails with its own error,
/// whatever the storage holds; it is never a success.
pub proof fn lemma_empty_run(storage: StorageView)
    ensures
        run(Seq::<CommandView>::empty(), storage, None) == CommandResultView::Error(
            empty_run_message(),
        ),
{
}

/// A run ends at its first `Stub` or failing load: what comes after it has
/// no say.
pub proof fn lemma_run_stops(
    commands: Seq<CommandView>,
    more: Seq<CommandView>,
    storage: StorageView,
    last: Option<TableView>,
)
    requires
        !(run(commands, storage, last) is RetrievedDataSuccess),
        commands.len() > 0,
    ensures
        run(commands + more, storage, last) == run(commands, storage, last),
    decreases commands.len(),
{
    let all = commands + more;
    assert(all[0] == commands[0]);
    match commands[0] {
        CommandView::Stub => {},
        CommandView::SelectFrom(columns, table) => {
            match load_table(table, columns, FileFormat::SimpleColumnar, storage) {
                Err(_) => {},
                Ok(loaded) => {
                    assert(all.skip(1) =~= commands.skip(1) + more);
                    if commands.skip(1).len() > 0 {
                        lemma_run_stops(commands.skip(1), more, storage, Some(loaded));
                    }
                },
            }
        },
    }
}

/// The paths of the files that a run of `commands` may read: for each
/// `SelectFrom`, in order, the path of the file of its table.
pub open spec fn read_paths(commands: Seq<CommandView>, data_dir: Seq<char>) -> Seq<Seq<char>>
    decreases commands.len(),
{
    if commands.len() == 0 {
        Seq::empty()
    } else {
        let front = read_paths(commands.drop_last(), data_dir);
        match commands.last() {
            CommandView::SelectFrom(_, table) => front.push(
                table_path(data_dir, table, FileFormat::SimpleColumnar),
            ),
            CommandView::Stub => front,
        }
    }
}

/// Two storages have the same data directory and, at `path`, the same file
/// or none.
pub open spec fn same_file(a: StorageView, b: StorageView, path: Seq<char>) -> bool {
    &&& a.data_dir == b.data_dir
    &&& a.files.dom().contains(path) == b.files.dom().contains(path)
    &&& a.files.dom().contains(path) ==> a.files[path] == b.files[path]
}

/// The file of the table of every `SelectFrom` is among the paths that a
/// run may read.
pub proof fn lemma_read_paths(commands: Seq<CommandView>, data_dir: Seq<char>, i: int)
    requires
        0 <= i < commands.len(),
        commands[i] is SelectFrom,
    ensures
        read_paths(commands, data_dir).contains(
            table_path(data_dir, commands[i]->SelectFrom_1, FileFormat::SimpleColumnar),
        ),
    decreases commands.len(),
{
    let paths = read_paths(commands, data_dir);
    let front = read_paths(commands.drop_last(), data_dir);
    if i == commands.len() - 1 {
        assert(commands.last() == commands[i]);
        assert(paths[paths.len() - 1] == table_path(
            data_dir,
            commands[i]->SelectFrom_1,
            FileFormat::SimpleColumnar,
        ));
    } else {
        assert(commands.drop_last()[i] == commands[i]);
        lemma_read_paths(commands.drop_last(), data_dir, i);
        let p = table_path(data_dir, commands[i]->SelectFrom_1, FileFormat::SimpleColumnar);
        let k = choose|k: int| 0 <= k < front.len() && front[k] == p;
        assert(paths[k] == p);
    }
}

/// **A run reads only the files of its tables.** Two storages that hold the
/// same files at the paths that a run may read give the run the same
/// outcome, whatever else they hold.
pub proof fn lemma_run_reads(
    commands: Seq<CommandView>,
    a: StorageView,
    b: StorageView,
    last: Option<TableView>,
)
    requires
        a.data_dir == b.data_dir,
        forall|k: int|
            0 <= k < read_paths(commands, a.data_dir).len() ==> same_file(
                a,
                b,
                #[trigger] read_paths(commands, a.data_dir)[k],
            ),
    ensures
        run(commands, a, last) == run(commands, b, last),
{
    assert forall|i: int| 0 <= i < commands.len() && commands[i] is SelectFrom implies same_file(
        a,
        b,
        table_path(a.data_dir, (#[trigger] commands[i])->SelectFrom_1, FileFormat::SimpleColumnar),
    ) by {
        lemma_read_paths(commands, a.data_dir, i);
    }
    lemma_run_same(commands, a, b, last);
}

/// Two storages that hold the same file for the table of every `SelectFrom`
/// give a run the same outcome.
proof fn lemma_run_same(
    commands: Seq<CommandView>,
    a: StorageView,
    b: StorageView,
    last: Option<TableView>,
)
    requires
        a.data_dir == b.data_dir,
        forall|i: int|
            0 <= i < commands.len() && commands[i] is SelectFrom ==> same_file(
                a,
                b,
                table_path(
                    a.data_dir,
                    (#[trigger] commands[i])->SelectFrom_1,
                    FileFormat::SimpleColumnar,
                ),
            ),
    ensures
        run(commands, a, last) == run(commands, b, last),
    decreases commands.len(),
{
    if commands.len() > 0 {
        match commands[0] {
            CommandView::Stub => {},
            CommandView::SelectFrom(columns, table) => {
                let rest = commands.skip(1);
                assert forall|i: int| 0 <= i < rest.len() && rest[i] is SelectFrom implies same_file(
                    a,
                    b,
                    table_path(
                        a.data_dir,
                        (#[trigger] rest[i])->SelectFrom_1,
                        FileFormat::SimpleColumnar,
                    ),
                ) by {
                    assert(rest[i] == commands[i + 1]);
                }
                match load_table(table, columns, FileFormat::SimpleColumnar, a) {
                    Err(_) => {},
                    Ok(loaded) => {
                        lemma_run_same(rest, a, b, Some(loaded));
                    },
                }
            },
        }
    }
}

/// The table that was loaded last, as a mathematical value.
pub open spec fn last_view(last: Option<Table>) -> Option<TableView> {
    match last {
        Some(table) => Some(table@),
        None => None,
    }
}

/// The machine that runs commands. It keeps nothing between two runs.
#[derive(Debug)]
pub struct VirtualMachine {}

impl VirtualMachine {
    /// A virtual machine.
    pub fn new() -> VirtualMachine {
        VirtualMachine {  }
    }

    /// The paths of the files that a run of `commands` may read in the data
    /// directory `data_dir`. A storage that holds what the disk holds at
    /// these paths is all that the run needs.
    pub fn reads(&self, commands: &Vec<Command>, data_dir: &String) -> (paths: Vec<String>)
        ensures
            names_of(paths@) == read_paths(commands_of(commands@), data_dir@),
    {
        let ghost all = commands_of(commands@);
        let mut paths: Vec<String> = Vec::new();
        let mut i: usize = 0;
        assert(all.take(0) =~= Seq::<CommandView>::empty());
        assert(names_of(paths@) =~= Seq::<Seq<char>>::empty());
        while i < commands.len()
            invariant
                i <= commands.len(),
                all == commands_of(commands@),
                names_of(paths@) == read_paths(all.take(i as int), data_dir@),
            decreases commands.len() - i,
        {
            proof {
                let next = all.take(i + 1);
                assert(next.drop_last() =~= all.take(i as int));
                assert(next.last() == commands@[i as int]@);
            }
            match &commands[i] {
                Command::SelectFrom(_, table) => {
                    let ghost before = names_of(paths@);
                    let path = Table::get_table_path(data_dir, table, &FileFormat::SimpleColumnar);
                    paths.push(path);
                    assert(names_of(paths@) =~= before.push(path@));
                },
                Command::Stub => {},
            }
            i += 1;
        }
        assert(all.take(i as int) =~= all);
        paths
    }

    /// Runs `commands`, in the order given, against `storage`.
    pub fn execute(&self, commands: Vec<Command>, storage: &Storage) -> (r: CommandResult)
        ensures
            r@ == run(commands_of(commands@), storage@, None),
            commands.len() == 0 ==> r@ == CommandResultView::Error(empty_run_message()),
    {
        let ghost all = commands_of(commands@);
        let ghost goal = run(all, storage@, None);
        let mut last: Option<Table> = None;
        let mut i: usize = 0;
        assert(all.skip(0) =~= all);
        while i < commands.len()
            invariant
                i <= commands.len(),
                all == commands_of(commands@),
                goal == run(all, storage@, None),
                run(all.skip(i as int), storage@, last_view(last)) == goal,
            decreases commands.len() - i,
        {
            proof {
                assert(all.skip(i as int)[0] == commands@[i as int]@);
                assert(all.skip(i as int).skip(1) =~= all.skip(i + 1));
            }
            match &commands[i] {
                Command::Stub => {
                    return CommandResult::VoidSuccess;
                },
                Command::SelectFrom(columns, table) => {
                    match Table::load(
                        table.clone(),
                        clone_names(columns),
                        FileFormat::SimpleColumnar,
                        storage,
                    ) {
                        Err(e) => {
                            return CommandResult::Error(e.message());
                        },
                        Ok(loaded) => {
                            last = Some(loaded);
                        },
                    }
                },
            }
            i += 1;
        }
        proof {
            assert(all.skip(i as int).len() == 0);
        }
        match last {
            Some(table) => CommandResult::RetrievedDataSuccess(table),
            None => {
                proof {
                    reveal_strlit("Empty command FIFO");
                }
                CommandResult::Error("Empty command FIFO".to_string())
            },
        }
    }
}

} // verus!
