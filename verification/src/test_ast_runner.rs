//! An in-memory executor of the statement tree: a file system, a working
//! directory, environment variables and a log of the commands that ran.
//!
//! The executor has two sets of methods. `run`, `mkdir`, `put_file` and
//! the steps below them take what can be done: a script that runs to its
//! end, a path whose parent is a directory, a condition that tests no
//! command. Anything else is a fault of the caller, which their `requires`
//! leaves out; a caller that Verus does not see and that hands one in all
//! the same is stopped by a panic at the step that cannot be taken, never
//! passed over in silence. `try_run`, `try_mkdir`, `try_put_file` and the
//! steps below them take everything, and say in their result which step
//! could not be taken.

use vstd::pervasive::unreached;
use vstd::prelude::*;
use vstd::slice::slice_to_vec;
use vstd::string::StringExecFns;
use crate::ast::{
    Command, CommandOption, CommandOptionView, CommandView, Condition, ConditionView, Statement,
    StatementView, clone_options, options_view,
};
use crate::bash::command_text;
use crate::path::{join_path, join_paths, path_segments, segments, texts_of};
use crate::text::same_text;

verus! {

/// A node of the simulated file system.
#[derive(Debug, PartialEq, Eq)]
pub enum DirectoryEntry {
    /// A directory: its entries by name, no name twice.
    Dir(Vec<(String, DirectoryEntry)>),
    /// A file and its content.
    File(Vec<u8>),
}

/// The view of a [`DirectoryEntry`].
pub enum EntryView {
    Dir(Map<Seq<char>, EntryView>),
    File(Seq<u8>),
}

/// Whether no two entries have the same name.
pub open spec fn distinct_names<T>(entries: Seq<(String, T)>) -> bool {
    forall|i: int, j: int| 0 <= i < j < entries.len() ==> entries[i].0@ != entries[j].0@
}

/// Whether some entry has the name `name`.
pub open spec fn has_name<T>(entries: Seq<(String, T)>, name: Seq<char>) -> bool {
    exists|i: int| 0 <= i < entries.len() && #[trigger] entries[i].0@ == name
}

/// The entries of a directory as a map from their names.
pub open spec fn entries_model(entries: Seq<(String, DirectoryEntry)>) -> Map<
    Seq<char>,
    EntryView,
>
    decreases entries, 0nat,
{
    if entries.len() == 0 {
        Map::empty()
    } else {
        entries_model(entries.drop_last()).insert(entries.last().0@, entries.last().1.model())
    }
}

impl DirectoryEntry {
    /// The mathematical tree that this entry stands for.
    pub open spec fn model(self) -> EntryView
        decreases self, 1nat,
    {
        match self {
            DirectoryEntry::Dir(entries) => EntryView::Dir(entries_model(entries@)),
            DirectoryEntry::File(body) => EntryView::File(body@),
        }
    }

    /// Whether no directory of the tree holds a name twice.
    pub open spec fn well_formed(self) -> bool
        decreases self,
    {
        match self {
            DirectoryEntry::Dir(entries) => distinct_names(entries@) && forall|i: int|
                0 <= i < entries@.len() ==> (#[trigger] entries@[i]).1.well_formed(),
            DirectoryEntry::File(_) => true,
        }
    }
}

impl View for DirectoryEntry {
    type V = EntryView;

    open spec fn view(&self) -> EntryView {
        self.model()
    }
}

/// The texts of the segments of a path.
pub open spec fn path_view(path: Seq<&str>) -> Seq<Seq<char>> {
    Seq::new(path.len(), |i: int| path[i]@)
}

/// What stands at `path` below `entry`: the entry itself for the empty
/// path; nothing where a segment is missing or leads through a file.
pub open spec fn lookup(entry: EntryView, path: Seq<Seq<char>>) -> Option<EntryView>
    decreases path.len(),
{
    if path.len() == 0 {
        Some(entry)
    } else {
        match entry {
            EntryView::Dir(children) => if children.contains_key(path[0]) {
                lookup(children[path[0]], path.skip(1))
            } else {
                None
            },
            EntryView::File(_) => None,
        }
    }
}

/// The tree with `new` in place of what stands at `path`; the tree as it
/// is where nothing stands there.
pub open spec fn replace_at(entry: EntryView, path: Seq<Seq<char>>, new: EntryView) -> EntryView
    decreases path.len(),
{
    if path.len() == 0 {
        new
    } else {
        match entry {
            EntryView::Dir(children) => if children.contains_key(path[0]) {
                EntryView::Dir(
                    children.insert(path[0], replace_at(children[path[0]], path.skip(1), new)),
                )
            } else {
                entry
            },
            EntryView::File(_) => entry,
        }
    }
}

/// Pairs of a name and a value in which no name stands twice.
pub open spec fn distinct_keys<V>(pairs: Seq<(Seq<char>, V)>) -> bool {
    forall|i: int, j: int| 0 <= i < j < pairs.len() ==> pairs[i].0 != pairs[j].0
}

/// Whether some pair has the name `name`.
pub open spec fn has_key<V>(pairs: Seq<(Seq<char>, V)>, name: Seq<char>) -> bool {
    exists|i: int| 0 <= i < pairs.len() && #[trigger] pairs[i].0 == name
}

/// Pairs of a name and a value as a map from the names.
pub open spec fn pairs_model<V>(pairs: Seq<(Seq<char>, V)>) -> Map<Seq<char>, V>
    decreases pairs.len(),
{
    if pairs.len() == 0 {
        Map::empty()
    } else {
        pairs_model(pairs.drop_last()).insert(pairs.last().0, pairs.last().1)
    }
}

/// The map of pairs with distinct names holds the names of the pairs and
/// nothing else, and under each name the value that goes with it.
pub proof fn lemma_pairs_model<V>(pairs: Seq<(Seq<char>, V)>)
    requires
        distinct_keys(pairs),
    ensures
        forall|name: Seq<char>| #[trigger]
            pairs_model(pairs).contains_key(name) <==> has_key(pairs, name),
        forall|i: int|
            0 <= i < pairs.len() ==> pairs_model(pairs)[#[trigger] pairs[i].0] == pairs[i].1,
    decreases pairs.len(),
{
    if pairs.len() > 0 {
        let front = pairs.drop_last();
        let last = pairs.last();
        lemma_pairs_model(front);
        assert(pairs_model(pairs) == pairs_model(front).insert(last.0, last.1));
        assert forall|name: Seq<char>| #[trigger]
            pairs_model(pairs).contains_key(name) <==> has_key(pairs, name) by {
            if has_key(front, name) {
                let k = choose|k: int| 0 <= k < front.len() && #[trigger] front[k].0 == name;
                assert(pairs[k].0 == name);
            }
            if has_key(pairs, name) && name != last.0 {
                let k = choose|k: int| 0 <= k < pairs.len() && #[trigger] pairs[k].0 == name;
                assert(front[k].0 == name);
            }
            if name == last.0 {
                assert(pairs[pairs.len() - 1].0 == name);
            }
        }
        assert forall|i: int| 0 <= i < pairs.len() implies pairs_model(
            pairs,
        )[#[trigger] pairs[i].0] == pairs[i].1 by {
            if i < pairs.len() - 1 {
                assert(front[i] == pairs[i]);
                assert(pairs[i].0 != last.0);
            }
        }
    }
}

/// Replacing the value of one name replaces what the map holds under it.
pub proof fn lemma_pairs_model_update<V>(pairs: Seq<(Seq<char>, V)>, i: int, pair: (Seq<char>, V))
    requires
        distinct_keys(pairs),
        0 <= i < pairs.len(),
        pair.0 == pairs[i].0,
    ensures
        distinct_keys(pairs.update(i, pair)),
        pairs_model(pairs.update(i, pair)) == pairs_model(pairs).insert(pair.0, pair.1),
    decreases pairs.len(),
{
    let updated = pairs.update(i, pair);
    let front = pairs.drop_last();
    if i == pairs.len() - 1 {
        assert(updated.drop_last() =~= front);
        assert(pairs_model(updated) =~= pairs_model(pairs).insert(pair.0, pair.1));
    } else {
        lemma_pairs_model_update(front, i, pair);
        assert(updated.drop_last() =~= front.update(i, pair));
        assert(pairs_model(updated) =~= pairs_model(pairs).insert(pair.0, pair.1));
    }
}

/// The entries of a directory as pairs of a name and a view.
pub open spec fn entry_pairs(entries: Seq<(String, DirectoryEntry)>) -> Seq<
    (Seq<char>, EntryView),
> {
    Seq::new(entries.len(), |i: int| (entries[i].0@, entries[i].1.model()))
}

/// The map of a directory is the map of its entries as pairs.
pub proof fn lemma_entries_as_pairs(entries: Seq<(String, DirectoryEntry)>)
    ensures
        entries_model(entries) == pairs_model(entry_pairs(entries)),
    decreases entries.len(),
{
    if entries.len() > 0 {
        lemma_entries_as_pairs(entries.drop_last());
        assert(entry_pairs(entries).drop_last() =~= entry_pairs(entries.drop_last()));
    }
}

/// The map of a directory holds the names of its entries and nothing else,
/// and under each name the entry that has it.
pub proof fn lemma_entries_model(entries: Seq<(String, DirectoryEntry)>)
    requires
        distinct_names(entries),
    ensures
        forall|name: Seq<char>| #[trigger]
            entries_model(entries).contains_key(name) <==> has_name(entries, name),
        forall|i: int|
            0 <= i < entries.len() ==> entries_model(entries)[#[trigger] entries[i].0@]
                == entries[i].1.model(),
{
    let pairs = entry_pairs(entries);
    lemma_entries_as_pairs(entries);
    lemma_pairs_model(pairs);
    assert forall|name: Seq<char>| #[trigger]
        entries_model(entries).contains_key(name) <==> has_name(entries, name) by {
        if has_name(entries, name) {
            let k = choose|k: int| 0 <= k < entries.len() && #[trigger] entries[k].0@ == name;
            assert(pairs[k].0 == name);
        }
        if has_key(pairs, name) {
            let k = choose|k: int| 0 <= k < pairs.len() && #[trigger] pairs[k].0 == name;
            assert(entries[k].0@ == name);
        }
    }
    assert forall|i: int| 0 <= i < entries.len() implies entries_model(
        entries,
    )[#[trigger] entries[i].0@] == entries[i].1.model() by {
        assert(pairs[i].0 == entries[i].0@);
    }
}

/// Replacing the entry of one name replaces what the map holds under it.
pub proof fn lemma_entries_model_update(
    entries: Seq<(String, DirectoryEntry)>,
    i: int,
    entry: (String, DirectoryEntry),
)
    requires
        distinct_names(entries),
        0 <= i < entries.len(),
        entry.0@ == entries[i].0@,
    ensures
        distinct_names(entries.update(i, entry)),
        entries_model(entries.update(i, entry)) == entries_model(entries).insert(
            entry.0@,
            entry.1.model(),
        ),
{
    let pair = (entry.0@, entry.1.model());
    lemma_entries_as_pairs(entries);
    lemma_entries_as_pairs(entries.update(i, entry));
    lemma_pairs_model_update(entry_pairs(entries), i, pair);
    assert(entry_pairs(entries.update(i, entry)) =~= entry_pairs(entries).update(i, pair));
}

/// Finds the entry of a name.
pub fn position_of<T>(entries: &Vec<(String, T)>, name: &str) -> (found: Option<usize>)
    ensures
        match found {
            Some(i) => i < entries@.len() && entries@[i as int].0@ == name@ && forall|j: int|
                0 <= j < i ==> entries@[j].0@ != name@,
            None => !has_name(entries@, name@),
        },
{
    let mut i: usize = 0;
    while i < entries.len()
        invariant
            i <= entries@.len(),
            forall|j: int| 0 <= j < i ==> entries@[j].0@ != name@,
        decreases entries@.len() - i,
    {
        if same_text(entries[i].0.as_str(), name) {
            return Some(i);
        }
        i += 1;
    }
    None
}

/// Whether no two entries have the same name.
pub fn has_distinct_names<T>(entries: &Vec<(String, T)>) -> (distinct: bool)
    ensures
        distinct == distinct_names(entries@),
{
    let mut j: usize = 0;
    while j < entries.len()
        invariant
            j <= entries@.len(),
            forall|a: int, b: int| 0 <= a < b < j ==> entries@[a].0@ != entries@[b].0@,
        decreases entries@.len() - j,
    {
        let mut i: usize = 0;
        while i < j
            invariant
                i <= j < entries@.len(),
                forall|a: int| 0 <= a < i ==> entries@[a].0@ != entries@[j as int].0@,
            decreases j - i,
        {
            if same_text(entries[i].0.as_str(), entries[j].0.as_str()) {
                return false;
            }
            i += 1;
        }
        j += 1;
    }
    true
}

impl DirectoryEntry {
    /// Whether no directory of the tree holds a name twice.
    pub fn is_well_formed(&self) -> (well_formed: bool)
        ensures
            well_formed == self.well_formed(),
        decreases self,
    {
        match self {
            DirectoryEntry::Dir(entries) => {
                if !has_distinct_names(entries) {
                    return false;
                }
                for i in 0..entries.len()
                    invariant
                        *self == DirectoryEntry::Dir(*entries),
                        distinct_names(entries@),
                        forall|j: int| 0 <= j < i ==> (#[trigger] entries@[j]).1.well_formed(),
                {
                    assert(decreases_to!(self => self->Dir_0@[i as int].1));
                    if !entries[i].1.is_well_formed() {
                        return false;
                    }
                }
                true
            },
            DirectoryEntry::File(_) => true,
        }
    }

    fn walk_from<'a>(&'a self, path: &[&str], from: usize) -> (found: Option<
        &'a DirectoryEntry,
    >)
        requires
            from <= path@.len(),
            self.well_formed(),
        ensures
            match found {
                Some(entry) => lookup(self@, path_view(path@).skip(from as int)) == Some(entry@)
                    && entry.well_formed(),
                None => lookup(self@, path_view(path@).skip(from as int)) is None,
            },
        decreases path@.len() - from,
    {
        let ghost rest = path_view(path@).skip(from as int);
        if from == path.len() {
            return Some(self);
        }
        assert(rest[0] == path@[from as int]@);
        assert(rest.skip(1) =~= path_view(path@).skip(from + 1));
        match self {
            DirectoryEntry::Dir(entries) => {
                proof {
                    lemma_entries_model(entries@);
                }
                match position_of(entries, path[from]) {
                    Some(i) => {
                        assert(entries@[i as int].1.well_formed());
                        entries[i].1.walk_from(path, from + 1)
                    },
                    None => None,
                }
            },
            DirectoryEntry::File(_) => None,
        }
    }

    /// The entry at `path` below this one, if there is one.
    pub fn walk<'a>(&'a self, path: &[&str]) -> (found: Option<&'a DirectoryEntry>)
        requires
            self.well_formed(),
        ensures
            match found {
                Some(entry) => lookup(self@, path_view(path@)) == Some(entry@)
                    && entry.well_formed(),
                None => lookup(self@, path_view(path@)) is None,
            },
    {
        assert(path_view(path@).skip(0) =~= path_view(path@));
        self.walk_from(path, 0)
    }

    fn walk_mut_from<'a>(&'a mut self, path: &[&str], from: usize) -> (found: Option<
        &'a mut DirectoryEntry,
    >)
        requires
            from <= path@.len(),
            old(self).well_formed(),
        ensures
            match found {
                Some(entry) => {
                    &&& lookup(old(self)@, path_view(path@).skip(from as int)) == Some(entry@)
                    &&& entry.well_formed()
                    &&& final(self)@ == replace_at(
                        old(self)@,
                        path_view(path@).skip(from as int),
                        final(entry)@,
                    )
                    &&& final(entry).well_formed() ==> final(self).well_formed()
                },
                None => {
                    &&& lookup(old(self)@, path_view(path@).skip(from as int)) is None
                    &&& final(self)@ == old(self)@
                    &&& final(self).well_formed()
                },
            },
        decreases path@.len() - from,
    {
        let ghost rest = path_view(path@).skip(from as int);
        if from == path.len() {
            return Some(self);
        }
        assert(rest[0] == path@[from as int]@);
        assert(rest.skip(1) =~= path_view(path@).skip(from + 1));
        match self {
            DirectoryEntry::Dir(entries) => {
                proof {
                    lemma_entries_model(entries@);
                }
                match position_of(entries, path[from]) {
                    Some(i) => {
                        assert(entries@[i as int].1.well_formed());
                        let ghost before = entries@;
                        assert(entries_model(before).insert(
                            before[i as int].0@,
                            before[i as int].1.model(),
                        ) =~= entries_model(before));
                        assert forall|entry: (String, DirectoryEntry)|
                            entry.0@ == before[i as int].0@ implies distinct_names(
                            #[trigger] before.update(i as int, entry),
                        ) && entries_model(before.update(i as int, entry)) == entries_model(
                            before,
                        ).insert(entry.0@, entry.1.model()) by {
                            lemma_entries_model_update(before, i as int, entry);
                        }
                        entries[i].1.walk_mut_from(path, from + 1)
                    },
                    None => None,
                }
            },
            DirectoryEntry::File(_) => None,
        }
    }

    /// The entry at `path` below this one, to be changed in place, if there
    /// is one.
    pub fn walk_mut<'a>(&'a mut self, path: &[&str]) -> (found: Option<&'a mut DirectoryEntry>)
        requires
            old(self).well_formed(),
        ensures
            match found {
                Some(entry) => {
                    &&& lookup(old(self)@, path_view(path@)) == Some(entry@)
                    &&& entry.well_formed()
                    &&& final(self)@ == replace_at(old(self)@, path_view(path@), final(entry)@)
                    &&& final(entry).well_formed() ==> final(self).well_formed()
                },
                None => {
                    &&& lookup(old(self)@, path_view(path@)) is None
                    &&& final(self)@ == old(self)@
                    &&& final(self).well_formed()
                },
            },
    {
        assert(path_view(path@).skip(0) =~= path_view(path@));
        self.walk_mut_from(path, 0)
    }
}

/// Why a script could not be run to its end.
#[derive(Debug, Clone, Copy, PartialEq, Eq, Structural)]
pub enum RunError {
    /// The command has no meaning in the simulated file system.
    UnsupportedCommand,
    /// The condition asks whether a command succeeds, and nothing here runs
    /// commands.
    UnsupportedCondition,
    /// The path names nothing: it has no segment.
    NoName,
    /// The directory that should hold the entry does not exist.
    MissingParent,
    /// What should hold the entry is a file.
    ParentIsFile,
}

/// The executor: the state that a script works on.
#[derive(Debug)]
pub struct TestAstRunner {
    /// The root of the file system.
    pub fs_state: DirectoryEntry,
    /// The path from which relative paths are read.
    pub working_directory: String,
    /// The text and the options of each action that ran, in order.
    pub commands: Vec<(String, Vec<CommandOption>)>,
    /// The environment variables by name, no name twice.
    pub environment_vars: Vec<(String, String)>,
}

/// The view of a [`TestAstRunner`].
pub struct RunnerView {
    pub fs_state: EntryView,
    pub working_directory: Seq<char>,
    pub commands: Seq<(Seq<char>, Seq<CommandOptionView>)>,
    pub environment_vars: Map<Seq<char>, Seq<char>>,
}

/// A state and, where the run broke off in it, the reason.
pub struct Outcome {
    pub state: RunnerView,
    pub failure: Option<RunError>,
}

/// The variables as a map from their names.
pub open spec fn vars_model(vars: Seq<(String, String)>) -> Map<Seq<char>, Seq<char>>
    decreases vars.len(),
{
    if vars.len() == 0 {
        Map::empty()
    } else {
        vars_model(vars.drop_last()).insert(vars.last().0@, vars.last().1@)
    }
}

/// The log as texts and option views.
pub open spec fn log_view(commands: Seq<(String, Vec<CommandOption>)>) -> Seq<
    (Seq<char>, Seq<CommandOptionView>),
> {
    Seq::new(commands.len(), |i: int| (commands[i].0@, options_view(commands[i].1@)))
}

impl View for TestAstRunner {
    type V = RunnerView;

    open spec fn view(&self) -> RunnerView {
        RunnerView {
            fs_state: self.fs_state@,
            working_directory: self.working_directory@,
            commands: log_view(self.commands@),
            environment_vars: vars_model(self.environment_vars@),
        }
    }
}

/// The segments of the place that `path` names, read from the working
/// directory.
pub open spec fn resolve(working_directory: Seq<char>, path: Seq<char>) -> Seq<Seq<char>> {
    segments(join_path(working_directory, path))
}

/// Why nothing can be made at `target`, if nothing can: the target has no
/// name, or its parent is missing or is a file.
pub open spec fn target_fault(fs: EntryView, target: Seq<Seq<char>>) -> Option<RunError> {
    if target.len() == 0 {
        Some(RunError::NoName)
    } else {
        match lookup(fs, target.drop_last()) {
            None => Some(RunError::MissingParent),
            Some(EntryView::File(_)) => Some(RunError::ParentIsFile),
            Some(EntryView::Dir(_)) => None,
        }
    }
}

/// The result that goes with a fault, or with none.
pub open spec fn fault_result(fault: Option<RunError>) -> Result<(), RunError> {
    match fault {
        Some(error) => Err(error),
        None => Ok(()),
    }
}

/// Whether a condition can be evaluated here: it tests no command, at no
/// depth.
pub open spec fn supported(condition: ConditionView) -> bool
    decreases condition,
{
    match condition {
        ConditionView::Exists(_) | ConditionView::IsDirectory(_) | ConditionView::IsFile(
            _,
        ) => true,
        ConditionView::CmdCond(_) => false,
        ConditionView::And(a, b) | ConditionView::Or(a, b) => supported(*a) && supported(*b),
        ConditionView::Not(a) => supported(*a),
    }
}

/// The file system after making a directory at `target`: unchanged where
/// something stands there already; an error where the target has no
/// name, or its parent is missing or is a file.
pub open spec fn mkdir_result(fs: EntryView, target: Seq<Seq<char>>) -> Result<
    EntryView,
    RunError,
> {
    if target.len() == 0 {
        Err(RunError::NoName)
    } else {
        match lookup(fs, target.drop_last()) {
            None => Err(RunError::MissingParent),
            Some(EntryView::File(_)) => Err(RunError::ParentIsFile),
            Some(EntryView::Dir(children)) => if children.contains_key(target.last()) {
                Ok(fs)
            } else {
                Ok(
                    replace_at(
                        fs,
                        target.drop_last(),
                        EntryView::Dir(
                            children.insert(target.last(), EntryView::Dir(Map::empty())),
                        ),
                    ),
                )
            },
        }
    }
}

/// The file system after writing a file at `target`, in place of whatever
/// stood there; an error where the target has no name, or its parent is
/// missing or is a file.
pub open spec fn put_file_result(fs: EntryView, target: Seq<Seq<char>>, body: Seq<u8>) -> Result<
    EntryView,
    RunError,
> {
    if target.len() == 0 {
        Err(RunError::NoName)
    } else {
        match lookup(fs, target.drop_last()) {
            None => Err(RunError::MissingParent),
            Some(EntryView::File(_)) => Err(RunError::ParentIsFile),
            Some(EntryView::Dir(children)) => Ok(
                replace_at(
                    fs,
                    target.drop_last(),
                    EntryView::Dir(children.insert(target.last(), EntryView::File(body))),
                ),
            ),
        }
    }
}

/// The first failure of two evaluations, else what `combine` makes of their
/// results. Both sides count, whatever the first one gives.
pub open spec fn both(
    first: Result<bool, RunError>,
    second: Result<bool, RunError>,
    combine: spec_fn(bool, bool) -> bool,
) -> Result<bool, RunError> {
    match first {
        Err(error) => Err(error),
        Ok(a) => match second {
            Err(error) => Err(error),
            Ok(b) => Ok(combine(a, b)),
        },
    }
}

/// Whether a condition holds in a state.
pub open spec fn eval(state: RunnerView, condition: ConditionView) -> Result<bool, RunError>
    decreases condition,
{
    match condition {
        ConditionView::Exists(path) => Ok(
            lookup(state.fs_state, resolve(state.working_directory, path)) is Some,
        ),
        ConditionView::IsDirectory(path) => Ok(
            lookup(state.fs_state, resolve(state.working_directory, path)) matches Some(
                EntryView::Dir(_),
            ),
        ),
        ConditionView::IsFile(path) => Ok(
            lookup(state.fs_state, resolve(state.working_directory, path)) matches Some(
                EntryView::File(_),
            ),
        ),
        ConditionView::CmdCond(_) => Err(RunError::UnsupportedCondition),
        ConditionView::And(a, b) => both(
            eval(state, *a),
            eval(state, *b),
            |x: bool, y: bool| x && y,
        ),
        ConditionView::Or(a, b) => both(
            eval(state, *a),
            eval(state, *b),
            |x: bool, y: bool| x || y,
        ),
        ConditionView::Not(a) => match eval(state, *a) {
            Ok(x) => Ok(!x),
            Err(error) => Err(error),
        },
    }
}

/// The state with one more entry in its log.
pub open spec fn logged(
    state: RunnerView,
    text: Seq<char>,
    options: Seq<CommandOptionView>,
) -> RunnerView {
    RunnerView { commands: state.commands.push((text, options)), ..state }
}

/// The state with another file system, or the state as it is and the
/// failure.
pub open spec fn with_fs(state: RunnerView, result: Result<EntryView, RunError>) -> Outcome {
    match result {
        Ok(fs) => Outcome { state: RunnerView { fs_state: fs, ..state }, failure: None },
        Err(error) => Outcome { state, failure: Some(error) },
    }
}

/// What one action does to a state.
pub open spec fn run_command(
    state: RunnerView,
    command: CommandView,
    options: Seq<CommandOptionView>,
) -> Outcome {
    match command {
        CommandView::Raw(_) | CommandView::Echo(_) | CommandView::Newline => Outcome {
            state: logged(state, command_text(command), options),
            failure: None,
        },
        CommandView::Envset(key, value) => Outcome {
            state: RunnerView {
                environment_vars: state.environment_vars.insert(key, value),
                ..state
            },
            failure: None,
        },
        CommandView::Cd(path) => Outcome {
            state: RunnerView {
                working_directory: join_path(state.working_directory, path),
                ..state
            },
            failure: None,
        },
        CommandView::Putfile(path, body) => with_fs(
            state,
            put_file_result(state.fs_state, resolve(state.working_directory, path), body),
        ),
        CommandView::Mkdir(path) => with_fs(
            state,
            mkdir_result(state.fs_state, resolve(state.working_directory, path)),
        ),
        CommandView::Copyfile(_, _) | CommandView::Movefile(_, _) | CommandView::Removefile(
            _,
        ) => Outcome { state, failure: Some(RunError::UnsupportedCommand) },
    }
}

/// What a statement does to a state. A fold does what its body does; a
/// conditional does what one of its branches does, or fails as its test
/// does.
pub open spec fn run_statement(state: RunnerView, statement: StatementView) -> Outcome
    decreases statement, 1nat,
{
    match statement {
        StatementView::Statements(children) => run_children(state, children),
        StatementView::Fold(_, body) => run_statement(state, *body),
        StatementView::Cmd(command, options) => run_command(state, command, options),
        StatementView::If(test, body, otherwise) => match eval(state, test) {
            Ok(true) => run_statement(state, *body),
            Ok(false) => run_statement(state, *otherwise),
            Err(error) => Outcome { state, failure: Some(error) },
        },
        StatementView::Noop => Outcome { state, failure: None },
    }
}

/// What the children of a sequence do to a state, each from where the one
/// before it left off, up to the first that fails.
pub open spec fn run_children(state: RunnerView, children: Seq<StatementView>) -> Outcome
    decreases children, 0nat,
{
    if children.len() == 0 {
        Outcome { state, failure: None }
    } else {
        let before = run_children(state, children.drop_last());
        if before.failure is Some {
            before
        } else {
            run_statement(before.state, children.last())
        }
    }
}

/// The outcome that a state and a result make.
pub open spec fn outcome(state: RunnerView, result: Result<(), RunError>) -> Outcome {
    Outcome {
        state,
        failure: match result {
            Ok(_) => None,
            Err(error) => Some(error),
        },
    }
}

/// The state in which every run starts: the directory `/home/travis`, and
/// nothing else.
pub open spec fn initial_state() -> RunnerView {
    RunnerView {
        fs_state: EntryView::Dir(
            map!["home"@ => EntryView::Dir(map!["travis"@ => EntryView::Dir(Map::empty())])],
        ),
        working_directory: "/home/travis"@,
        commands: Seq::empty(),
        environment_vars: Map::empty(),
    }
}

/// Putting back what stands at a path changes nothing.
pub proof fn lemma_replace_with_same(entry: EntryView, path: Seq<Seq<char>>)
    requires
        lookup(entry, path) is Some,
    ensures
        replace_at(entry, path, lookup(entry, path)->0) == entry,
    decreases path.len(),
{
    if path.len() > 0 {
        match entry {
            EntryView::Dir(children) => {
                lemma_replace_with_same(children[path[0]], path.skip(1));
                assert(children.insert(path[0], children[path[0]]) =~= children);
            },
            EntryView::File(_) => {},
        }
    }
}

/// The variables as pairs of a name and a value.
pub open spec fn var_pairs(vars: Seq<(String, String)>) -> Seq<(Seq<char>, Seq<char>)> {
    Seq::new(vars.len(), |i: int| (vars[i].0@, vars[i].1@))
}

/// The map of the variables is the map of the variables as pairs.
pub proof fn lemma_vars_as_pairs(vars: Seq<(String, String)>)
    ensures
        vars_model(vars) == pairs_model(var_pairs(vars)),
    decreases vars.len(),
{
    if vars.len() > 0 {
        lemma_vars_as_pairs(vars.drop_last());
        assert(var_pairs(vars).drop_last() =~= var_pairs(vars.drop_last()));
    }
}

/// The map of the variables holds the names of the variables and nothing
/// else, and under each name its value.
pub proof fn lemma_vars_model(vars: Seq<(String, String)>)
    requires
        distinct_names(vars),
    ensures
        forall|name: Seq<char>| #[trigger]
            vars_model(vars).contains_key(name) <==> has_name(vars, name),
        forall|i: int|
            0 <= i < vars.len() ==> vars_model(vars)[#[trigger] vars[i].0@] == vars[i].1@,
{
    let pairs = var_pairs(vars);
    lemma_vars_as_pairs(vars);
    lemma_pairs_model(pairs);
    assert forall|name: Seq<char>| #[trigger]
        vars_model(vars).contains_key(name) <==> has_name(vars, name) by {
        if has_name(vars, name) {
            let k = choose|k: int| 0 <= k < vars.len() && #[trigger] vars[k].0@ == name;
            assert(pairs[k].0 == name);
        }
        if has_key(pairs, name) {
            let k = choose|k: int| 0 <= k < pairs.len() && #[trigger] pairs[k].0 == name;
            assert(vars[k].0@ == name);
        }
    }
    assert forall|i: int| 0 <= i < vars.len() implies vars_model(vars)[#[trigger] vars[i].0@]
        == vars[i].1@ by {
        assert(pairs[i].0 == vars[i].0@);
    }
}

/// Replacing the value of one variable replaces what the map holds under
/// its name.
pub proof fn lemma_vars_model_update(vars: Seq<(String, String)>, i: int, var: (String, String))
    requires
        distinct_names(vars),
        0 <= i < vars.len(),
        var.0@ == vars[i].0@,
    ensures
        distinct_names(vars.update(i, var)),
        vars_model(vars.update(i, var)) == vars_model(vars).insert(var.0@, var.1@),
{
    let pair = (var.0@, var.1@);
    lemma_vars_as_pairs(vars);
    lemma_vars_as_pairs(vars.update(i, var));
    lemma_pairs_model_update(var_pairs(vars), i, pair);
    assert(var_pairs(vars.update(i, var)) =~= var_pairs(vars).update(i, pair));
}

/// The strings of a list, borrowed.
fn borrowed(parts: &Vec<String>) -> (refs: Vec<&str>)
    ensures
        path_view(refs@) == texts_of(parts@),
{
    let mut refs: Vec<&str> = Vec::new();
    for i in 0..parts.len()
        invariant
            refs@.len() == i,
            forall|j: int| 0 <= j < i ==> refs@[j]@ == parts@[j]@,
    {
        refs.push(parts[i].as_str());
    }
    assert(path_view(refs@) =~= texts_of(parts@));
    refs
}

impl TestAstRunner {
    /// Whether no directory holds a name twice, and no variable is there
    /// twice.
    pub open spec fn well_formed(self) -> bool {
        self.fs_state.well_formed() && distinct_names(self.environment_vars@)
    }

    /// Whether no directory holds a name twice, and no variable is there
    /// twice: what every other method asks of the executor before it
    /// starts.
    pub fn is_well_formed(&self) -> (well_formed: bool)
        ensures
            well_formed == self.well_formed(),
    {
        self.fs_state.is_well_formed() && has_distinct_names(&self.environment_vars)
    }

    /// An executor in the initial state.
    pub fn new() -> (runner: TestAstRunner)
        ensures
            runner.well_formed(),
            runner@ == initial_state(),
    {
        let mut home: Vec<(String, DirectoryEntry)> = Vec::new();
        home.push((String::from_str("travis"), DirectoryEntry::Dir(Vec::new())));
        let mut root: Vec<(String, DirectoryEntry)> = Vec::new();
        root.push((String::from_str("home"), DirectoryEntry::Dir(home)));
        let runner = TestAstRunner {
            fs_state: DirectoryEntry::Dir(root),
            commands: Vec::new(),
            working_directory: String::from_str("/home/travis"),
            environment_vars: Vec::new(),
        };
        proof {
            let empty = Seq::<(String, DirectoryEntry)>::empty();
            assert(home@.drop_last() =~= empty);
            assert(root@.drop_last() =~= empty);
            assert(home@[0].1.model() == EntryView::Dir(Map::empty()));
            assert(entries_model(home@) =~= map!["travis"@ => EntryView::Dir(Map::empty())]);
            assert(root@.last().1.model() == EntryView::Dir(entries_model(home@)));
            assert(entries_model(root@) =~= map!["home"@ => EntryView::Dir(entries_model(home@))]);
            assert(log_view(runner.commands@) =~= Seq::empty());
            assert(home@[0].1.well_formed());
            assert(root@[0].1.well_formed());
        }
        runner
    }

    /// The entry that `path` names, read from the working directory.
    pub fn entry_at(&self, path: &str) -> (found: Option<&DirectoryEntry>)
        requires
            self.well_formed(),
        ensures
            match found {
                Some(entry) => lookup(self@.fs_state, resolve(self@.working_directory, path@))
                    == Some(entry@),
                None => lookup(self@.fs_state, resolve(self@.working_directory, path@)) is None,
            },
    {
        let full = join_paths(self.working_directory.as_str(), path);
        let parts = path_segments(full.as_str());
        let refs = borrowed(&parts);
        self.fs_state.walk(refs.as_slice())
    }

    /// Whether something can be made at `path`: the error says that the
    /// path has no name, or that its parent is missing or is a file.
    pub fn check_target(&self, path: &str) -> (result: Result<(), RunError>)
        requires
            self.well_formed(),
        ensures
            result == fault_result(
                target_fault(self@.fs_state, resolve(self@.working_directory, path@)),
            ),
    {
        let full = join_paths(self.working_directory.as_str(), path);
        let mut parts = path_segments(full.as_str());
        let ghost target = texts_of(parts@);
        if parts.pop().is_none() {
            return Err(RunError::NoName);
        }
        assert(texts_of(parts@) =~= target.drop_last());
        let refs = borrowed(&parts);
        match self.fs_state.walk(refs.as_slice()) {
            Some(DirectoryEntry::Dir(_)) => Ok(()),
            Some(DirectoryEntry::File(_)) => Err(RunError::ParentIsFile),
            None => Err(RunError::MissingParent),
        }
    }

    /// Makes a directory; where something stands at the path already,
    /// nothing changes.
    ///
    /// The path has to have a name, and its parent has to be there and be
    /// a directory. `try_mkdir` takes any path.
    pub fn mkdir(&mut self, path: &str)
        requires
            old(self).well_formed(),
            mkdir_result(old(self)@.fs_state, resolve(old(self)@.working_directory, path@)) is Ok,
        ensures
            final(self).well_formed(),
            outcome(final(self)@, Ok(())) == with_fs(
                old(self)@,
                mkdir_result(old(self)@.fs_state, resolve(old(self)@.working_directory, path@)),
            ),
    {
        let full = join_paths(self.working_directory.as_str(), path);
        let mut parts = path_segments(full.as_str());
        let ghost target = texts_of(parts@);
        let name = match parts.pop() {
            Some(name) => name,
            None => unreached(),
        };
        assert(texts_of(parts@) =~= target.drop_last());
        let refs = borrowed(&parts);
        proof {
            if lookup(self.fs_state@, target.drop_last()) is Some {
                lemma_replace_with_same(self.fs_state@, target.drop_last());
            }
        }
        match self.fs_state.walk_mut(refs.as_slice()) {
            Some(entry) => match entry {
                DirectoryEntry::Dir(entries) => {
                    proof {
                        lemma_entries_model(entries@);
                    }
                    if position_of(entries, name.as_str()).is_none() {
                        let ghost before = entries@;
                        entries.push((name, DirectoryEntry::Dir(Vec::new())));
                        proof {
                            assert(entries@.drop_last() =~= before);
                            assert(entries@.last().1.model() == EntryView::Dir(Map::empty()));
                            assert(entries@.last().1.well_formed());
                            assert forall|i: int| 0 <= i < entries@.len() implies (
                            #[trigger] entries@[i]).1.well_formed() by {
                                if i < before.len() {
                                    assert(before[i].1.well_formed());
                                }
                            }
                            assert(distinct_names(entries@)) by {
                                assert forall|i: int, j: int|
                                    0 <= i < j < entries@.len() implies entries@[i].0@
                                    != entries@[j].0@ by {
                                    if j == before.len() {
                                        assert(before[i].0@ != target.last());
                                    }
                                }
                            }
                        }
                    }
                },
                DirectoryEntry::File(_) => unreached(),
            },
            None => unreached(),
        }
    }

    /// Makes a directory, or says why none can be made at the path. Where
    /// none can, nothing changes.
    pub fn try_mkdir(&mut self, path: &str) -> (result: Result<(), RunError>)
        requires
            old(self).well_formed(),
        ensures
            final(self).well_formed(),
            outcome(final(self)@, result) == with_fs(
                old(self)@,
                mkdir_result(old(self)@.fs_state, resolve(old(self)@.working_directory, path@)),
            ),
    {
        match self.check_target(path) {
            Ok(()) => {
                self.mkdir(path);
                Ok(())
            },
            Err(error) => Err(error),
        }
    }

    /// Writes a file, in place of whatever stands at the path.
    ///
    /// The path has to have a name, and its parent has to be there and be
    /// a directory. `try_put_file` takes any path.
    pub fn put_file(&mut self, path: &str, body: &[u8])
        requires
            old(self).well_formed(),
            put_file_result(
                old(self)@.fs_state,
                resolve(old(self)@.working_directory, path@),
                body@,
            ) is Ok,
        ensures
            final(self).well_formed(),
            outcome(final(self)@, Ok(())) == with_fs(
                old(self)@,
                put_file_result(
                    old(self)@.fs_state,
                    resolve(old(self)@.working_directory, path@),
                    body@,
                ),
            ),
    {
        let full = join_paths(self.working_directory.as_str(), path);
        let mut parts = path_segments(full.as_str());
        let ghost target = texts_of(parts@);
        let name = match parts.pop() {
            Some(name) => name,
            None => unreached(),
        };
        assert(texts_of(parts@) =~= target.drop_last());
        let refs = borrowed(&parts);
        proof {
            if lookup(self.fs_state@, target.drop_last()) is Some {
                lemma_replace_with_same(self.fs_state@, target.drop_last());
            }
        }
        match self.fs_state.walk_mut(refs.as_slice()) {
            Some(entry) => match entry {
                DirectoryEntry::Dir(entries) => {
                    proof {
                        lemma_entries_model(entries@);
                    }
                    let file = DirectoryEntry::File(slice_to_vec(body));
                    let ghost before = entries@;
                    match position_of(entries, name.as_str()) {
                        Some(i) => {
                            proof {
                                lemma_entries_model_update(before, i as int, (name, file));
                            }
                            entries[i] = (name, file);
                            assert forall|j: int| 0 <= j < entries@.len() implies (
                            #[trigger] entries@[j]).1.well_formed() by {
                                if j != i {
                                    assert(before[j].1.well_formed());
                                }
                            }
                        },
                        None => {
                            entries.push((name, file));
                            proof {
                                assert(entries@.drop_last() =~= before);
                                assert(entries@.last().1.model() == EntryView::File(body@));
                                assert forall|j: int| 0 <= j < entries@.len() implies (
                                #[trigger] entries@[j]).1.well_formed() by {
                                    if j < before.len() {
                                        assert(before[j].1.well_formed());
                                    }
                                }
                                assert(distinct_names(entries@)) by {
                                    assert forall|i: int, j: int|
                                        0 <= i < j < entries@.len() implies entries@[i].0@
                                        != entries@[j].0@ by {
                                        if j == before.len() {
                                            assert(before[i].0@ != target.last());
                                        }
                                    }
                                }
                            }
                        },
                    }
                },
                DirectoryEntry::File(_) => unreached(),
            },
            None => unreached(),
        }
    }

    /// Writes a file, or says why none can be written at the path. Where
    /// none can, nothing changes.
    pub fn try_put_file(&mut self, path: &str, body: &[u8]) -> (result: Result<(), RunError>)
        requires
            old(self).well_formed(),
        ensures
            final(self).well_formed(),
            outcome(final(self)@, result) == with_fs(
                old(self)@,
                put_file_result(
                    old(self)@.fs_state,
                    resolve(old(self)@.working_directory, path@),
                    body@,
                ),
            ),
    {
        match self.check_target(path) {
            Ok(()) => {
                self.put_file(path, body);
                Ok(())
            },
            Err(error) => Err(error),
        }
    }
}

/// Looking up a path goes segment by segment: what stands at a path and
/// then at another stands at the two joined.
pub proof fn lemma_lookup_concat(entry: EntryView, first: Seq<Seq<char>>, second: Seq<Seq<char>>)
    ensures
        lookup(entry, first + second) == match lookup(entry, first) {
            Some(found) => lookup(found, second),
            None => None,
        },
    decreases first.len(),
{
    if first.len() == 0 {
        assert(first + second =~= second);
    } else {
        assert((first + second)[0] == first[0]);
        assert((first + second).skip(1) =~= first.skip(1) + second);
        match entry {
            EntryView::Dir(children) => {
                if children.contains_key(first[0]) {
                    lemma_lookup_concat(children[first[0]], first.skip(1), second);
                }
            },
            EntryView::File(_) => {},
        }
    }
}

/// What is put in place of an entry stands where the entry stood.
pub proof fn lemma_lookup_replaced(entry: EntryView, path: Seq<Seq<char>>, new: EntryView)
    requires
        lookup(entry, path) is Some,
    ensures
        lookup(replace_at(entry, path, new), path) == Some(new),
    decreases path.len(),
{
    if path.len() > 0 {
        match entry {
            EntryView::Dir(children) => {
                lemma_lookup_replaced(children[path[0]], path.skip(1), new);
            },
            EntryView::File(_) => {},
        }
    }
}

/// A file that was written can be read: after `put_file` has succeeded,
/// the file stands at the target with the content that was given.
pub proof fn lemma_put_file_then_lookup(fs: EntryView, target: Seq<Seq<char>>, body: Seq<u8>)
    requires
        put_file_result(fs, target, body) is Ok,
    ensures
        lookup(put_file_result(fs, target, body)->Ok_0, target) == Some(EntryView::File(body)),
{
    let parent = target.drop_last();
    let name = target.last();
    let children = lookup(fs, parent)->0->Dir_0;
    let directory = EntryView::Dir(children.insert(name, EntryView::File(body)));
    let after = put_file_result(fs, target, body)->Ok_0;
    lemma_lookup_replaced(fs, parent, directory);
    lemma_lookup_concat(after, parent, seq![name]);
    assert(parent + seq![name] =~= target);
    assert(lookup(EntryView::File(body), seq![name].skip(1)) == Some(EntryView::File(body)));
}

/// A directory that was made is there: after `mkdir` has succeeded,
/// something stands at the target, and it is an empty directory where
/// nothing stood there before.
pub proof fn lemma_mkdir_then_lookup(fs: EntryView, target: Seq<Seq<char>>)
    requires
        mkdir_result(fs, target) is Ok,
    ensures
        lookup(mkdir_result(fs, target)->Ok_0, target) is Some,
        lookup(fs, target) is None ==> lookup(mkdir_result(fs, target)->Ok_0, target) == Some(
            EntryView::Dir(Map::empty()),
        ),
{
    let parent = target.drop_last();
    let name = target.last();
    let children = lookup(fs, parent)->0->Dir_0;
    let after = mkdir_result(fs, target)->Ok_0;
    let empty = EntryView::Dir(Map::empty());
    assert(parent + seq![name] =~= target);
    lemma_lookup_concat(fs, parent, seq![name]);
    lemma_lookup_concat(after, parent, seq![name]);
    if children.contains_key(name) {
        assert(lookup(children[name], seq![name].skip(1)) == Some(children[name]));
    } else {
        lemma_lookup_replaced(fs, parent, EntryView::Dir(children.insert(name, empty)));
        assert(lookup(empty, seq![name].skip(1)) == Some(empty));
    }
}

/// Once a child has failed, the children behind it do nothing.
pub proof fn lemma_run_children_stops(state: RunnerView, children: Seq<StatementView>, upto: int)
    requires
        0 <= upto <= children.len(),
        run_children(state, children.take(upto)).failure is Some,
    ensures
        run_children(state, children) == run_children(state, children.take(upto)),
    decreases children.len(),
{
    if upto == children.len() {
        assert(children.take(upto) =~= children);
    } else {
        let front = children.drop_last();
        assert(front.take(upto) =~= children.take(upto));
        lemma_run_children_stops(state, front, upto);
    }
}

/// While the children as a whole do not fail, none of their beginnings
/// does.
pub proof fn lemma_run_children_prefix(state: RunnerView, children: Seq<StatementView>, upto: int)
    requires
        0 <= upto <= children.len(),
        run_children(state, children).failure is None,
    ensures
        run_children(state, children.take(upto)).failure is None,
{
    if run_children(state, children.take(upto)).failure is Some {
        lemma_run_children_stops(state, children, upto);
    }
}

/// A condition can be evaluated exactly where it tests no command, and
/// where it cannot, that is the one thing wrong with it.
pub proof fn lemma_eval_supported(state: RunnerView, condition: ConditionView)
    ensures
        eval(state, condition) is Ok <==> supported(condition),
        eval(state, condition) is Err ==> eval(state, condition) == Err::<bool, RunError>(
            RunError::UnsupportedCondition,
        ),
    decreases condition,
{
    match condition {
        ConditionView::And(a, b) | ConditionView::Or(a, b) => {
            lemma_eval_supported(state, *a);
            lemma_eval_supported(state, *b);
        },
        ConditionView::Not(a) => {
            lemma_eval_supported(state, *a);
        },
        _ => {},
    }
}

/// Whether a condition can be evaluated here: it tests no command, at no
/// depth.
pub fn is_supported(condition: &Condition) -> (yes: bool)
    ensures
        yes == supported(condition@),
    decreases condition,
{
    match condition {
        Condition::Exists(_) => true,
        Condition::IsDirectory(_) => true,
        Condition::IsFile(_) => true,
        Condition::CmdCond(_) => false,
        Condition::And(a, b) => is_supported(a) && is_supported(b),
        Condition::Or(a, b) => is_supported(a) && is_supported(b),
        Condition::Not(a) => is_supported(a),
    }
}

impl TestAstRunner {
    /// Whether a condition holds in the present state. Both sides of an
    /// `And` and of an `Or` are evaluated, whatever the first one gives.
    ///
    /// The condition has to be one that can be evaluated here: whether a
    /// command succeeds is never guessed. `try_eval_condition` takes any
    /// condition.
    pub fn eval_condition(&self, condition: &Condition) -> (holds: bool)
        requires
            self.well_formed(),
            eval(self@, condition@) is Ok,
        ensures
            Ok::<bool, RunError>(holds) == eval(self@, condition@),
        decreases condition,
    {
        match condition {
            Condition::Exists(path) => self.entry_at(path.as_str()).is_some(),
            Condition::IsDirectory(path) => match self.entry_at(path.as_str()) {
                Some(DirectoryEntry::Dir(_)) => true,
                _ => false,
            },
            Condition::IsFile(path) => match self.entry_at(path.as_str()) {
                Some(DirectoryEntry::File(_)) => true,
                _ => false,
            },
            Condition::CmdCond(_) => unreached(),
            Condition::And(a, b) => {
                let first = self.eval_condition(a);
                let second = self.eval_condition(b);
                first && second
            },
            Condition::Or(a, b) => {
                let first = self.eval_condition(a);
                let second = self.eval_condition(b);
                first || second
            },
            Condition::Not(a) => !self.eval_condition(a),
        }
    }

    /// Whether a condition holds in the present state, or that it cannot
    /// be evaluated here.
    pub fn try_eval_condition(&self, condition: &Condition) -> (result: Result<bool, RunError>)
        requires
            self.well_formed(),
        ensures
            result == eval(self@, condition@),
    {
        proof {
            lemma_eval_supported(self@, condition@);
        }
        if is_supported(condition) {
            Ok(self.eval_condition(condition))
        } else {
            Err(RunError::UnsupportedCondition)
        }
    }

    /// Adds an entry to the log.
    fn log(&mut self, text: String, options: &Vec<CommandOption>)
        requires
            old(self).well_formed(),
        ensures
            final(self).well_formed(),
            final(self)@ == logged(old(self)@, text@, options_view(options@)),
    {
        let ghost before = self.commands@;
        self.commands.push((text, clone_options(options)));
        assert(log_view(self.commands@) =~= log_view(before).push(
            (text@, options_view(options@)),
        ));
    }

    /// Gives a variable a value, in place of the one it had.
    pub fn set_var(&mut self, key: &str, value: &str)
        requires
            old(self).well_formed(),
        ensures
            final(self).well_formed(),
            final(self)@ == (RunnerView {
                environment_vars: old(self)@.environment_vars.insert(key@, value@),
                ..old(self)@
            }),
    {
        let ghost before = self.environment_vars@;
        let var = (String::from_str(key), String::from_str(value));
        match position_of(&self.environment_vars, key) {
            Some(i) => {
                proof {
                    lemma_vars_model_update(before, i as int, var);
                }
                self.environment_vars[i] = var;
            },
            None => {
                self.environment_vars.push(var);
                assert(self.environment_vars@.drop_last() =~= before);
                assert forall|i: int, j: int|
                    0 <= i < j < self.environment_vars@.len() implies self.environment_vars@[i].0@
                    != self.environment_vars@[j].0@ by {
                    if j == before.len() {
                        assert(before[i].0@ != key@);
                    }
                }
            },
        }
    }

    /// The value of a variable, if it has one.
    pub fn var(&self, key: &str) -> (value: Option<&String>)
        requires
            self.well_formed(),
        ensures
            match value {
                Some(text) => self@.environment_vars.contains_key(key@)
                    && self@.environment_vars[key@] == text@,
                None => !self@.environment_vars.contains_key(key@),
            },
    {
        proof {
            lemma_vars_model(self.environment_vars@);
        }
        match position_of(&self.environment_vars, key) {
            Some(i) => Some(&self.environment_vars[i].1),
            None => None,
        }
    }

    /// Runs one action.
    ///
    /// The command has to be one that has a meaning here, and that can be
    /// carried out in the present state. `try_run_command` takes any
    /// command.
    pub fn run_command(&mut self, command: &Command, options: &Vec<CommandOption>)
        requires
            old(self).well_formed(),
            run_command(old(self)@, command@, options_view(options@)).failure is None,
        ensures
            final(self).well_formed(),
            outcome(final(self)@, Ok(())) == run_command(
                old(self)@,
                command@,
                options_view(options@),
            ),
    {
        match command {
            Command::Raw(text) => self.log(text.clone(), options),
            Command::Echo(text) => {
                let mut line = String::from_str("echo ");
                line.append(text.as_str());
                self.log(line, options);
            },
            Command::Newline => self.log(String::from_str("echo"), options),
            Command::Envset(key, value) => self.set_var(key.as_str(), value.as_str()),
            Command::Cd(path) => {
                self.working_directory = join_paths(self.working_directory.as_str(), path.as_str());
            },
            Command::Putfile(path, body) => self.put_file(path.as_str(), body.as_slice()),
            Command::Mkdir(path) => self.mkdir(path.as_str()),
            _ => unreached(),
        }
    }

    /// Runs one action, or says why it cannot be run: the command has no
    /// meaning here, or the place that it names cannot take what the
    /// command makes. Where it cannot be run, nothing changes.
    pub fn try_run_command(
        &mut self,
        command: &Command,
        options: &Vec<CommandOption>,
    ) -> (result: Result<(), RunError>)
        requires
            old(self).well_formed(),
        ensures
            final(self).well_formed(),
            outcome(final(self)@, result) == run_command(
                old(self)@,
                command@,
                options_view(options@),
            ),
    {
        let check = match command {
            Command::Copyfile(_, _) => Err(RunError::UnsupportedCommand),
            Command::Movefile(_, _) => Err(RunError::UnsupportedCommand),
            Command::Removefile(_) => Err(RunError::UnsupportedCommand),
            Command::Putfile(path, _) => self.check_target(path.as_str()),
            Command::Mkdir(path) => self.check_target(path.as_str()),
            _ => Ok(()),
        };
        match check {
            Ok(()) => {
                self.run_command(command, options);
                Ok(())
            },
            Err(error) => Err(error),
        }
    }

    /// Runs one branch of a conditional: the first where the test holds,
    /// the second where it does not.
    ///
    /// The test has to be one that can be evaluated here, and the branch
    /// one that runs to its end. `try_run` takes any statement.
    pub fn run_if(&mut self, condition: &Condition, thenbody: &Statement, elsebody: &Statement)
        requires
            old(self).well_formed(),
            run_statement(
                old(self)@,
                StatementView::If(condition@, Box::new(thenbody@), Box::new(elsebody@)),
            ).failure is None,
        ensures
            final(self).well_formed(),
            outcome(final(self)@, Ok(())) == run_statement(
                old(self)@,
                StatementView::If(condition@, Box::new(thenbody@), Box::new(elsebody@)),
            ),
        decreases thenbody, elsebody,
    {
        if self.eval_condition(condition) {
            self.run_statement(thenbody);
        } else {
            self.run_statement(elsebody);
        }
    }

    /// Runs a statement.
    ///
    /// The statement has to be one that runs to its end from the present
    /// state. `try_run` takes any statement.
    pub fn run_statement(&mut self, statement: &Statement)
        requires
            old(self).well_formed(),
            run_statement(old(self)@, statement@).failure is None,
        ensures
            final(self).well_formed(),
            outcome(final(self)@, Ok(())) == run_statement(old(self)@, statement@),
        decreases statement,
    {
        match statement {
            Statement::Statements(children) => {
                let ghost start = self@;
                let ghost views = statement@->Statements_0;
                for i in 0..children.len()
                    invariant
                        *statement == Statement::Statements(*children),
                        views == statement@->Statements_0,
                        start == old(self)@,
                        self.well_formed(),
                        run_children(start, views).failure is None,
                        run_children(start, views.take(i as int)) == outcome(self@, Ok(())),
                {
                    assert(views.take(i + 1).drop_last() =~= views.take(i as int));
                    assert(views.take(i + 1).last() == children@[i as int]@);
                    proof {
                        lemma_run_children_prefix(start, views, i + 1);
                    }
                    self.run_statement(&children[i]);
                }
                assert(views.take(children@.len() as int) =~= views);
            },
            Statement::Fold(_, body) => self.run_statement(body),
            Statement::Cmd(command, options) => self.run_command(command, options),
            Statement::If(test, body, otherwise) => {
                if self.eval_condition(test) {
                    self.run_statement(body);
                } else {
                    self.run_statement(otherwise);
                }
            },
            Statement::Noop => {},
        }
    }

    /// Runs a script: its statements in order, each on the state that the
    /// one before it left.
    ///
    /// The script has to be one that runs to its end from the present
    /// state: every command in its way has a meaning here and finds the
    /// place that it needs, and no test in its way asks whether a command
    /// succeeds. `try_run` takes any script.
    pub fn run(&mut self, script: &Statement)
        requires
            old(self).well_formed(),
            run_statement(old(self)@, script@).failure is None,
        ensures
            final(self).well_formed(),
            outcome(final(self)@, Ok(())) == run_statement(old(self)@, script@),
    {
        self.run_statement(script)
    }

    /// Runs a script as far as it can be run: its statements in order,
    /// each on the state that the one before it left. A command or a
    /// condition that has no meaning here, or a file-system step that
    /// cannot be taken, ends the run with the error and with the state as
    /// it then is.
    pub fn try_run(&mut self, script: &Statement) -> (result: Result<(), RunError>)
        requires
            old(self).well_formed(),
        ensures
            final(self).well_formed(),
            outcome(final(self)@, result) == run_statement(old(self)@, script@),
        decreases script,
    {
        match script {
            Statement::Statements(children) => {
                let ghost start = self@;
                let ghost views = script@->Statements_0;
                for i in 0..children.len()
                    invariant
                        *script == Statement::Statements(*children),
                        views == script@->Statements_0,
                        start == old(self)@,
                        self.well_formed(),
                        run_children(start, views.take(i as int)) == outcome(self@, Ok(())),
                {
                    assert(views.take(i + 1).drop_last() =~= views.take(i as int));
                    assert(views.take(i + 1).last() == children@[i as int]@);
                    match self.try_run(&children[i]) {
                        Ok(()) => {},
                        Err(error) => {
                            proof {
                                lemma_run_children_stops(start, views, i + 1);
                            }
                            return Err(error);
                        },
                    }
                }
                assert(views.take(children@.len() as int) =~= views);
                Ok(())
            },
            Statement::Fold(_, body) => self.try_run(body),
            Statement::Cmd(command, options) => self.try_run_command(command, options),
            Statement::If(test, body, otherwise) => match self.try_eval_condition(test) {
                Ok(true) => self.try_run(body),
                Ok(false) => self.try_run(otherwise),
                Err(error) => Err(error),
            },
            Statement::Noop => Ok(()),
        }
    }
}

} // verus!
