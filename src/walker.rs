use vstd::prelude::*;
use crate::glob::SEP;
use crate::matcher::Matcher;
use crate::rules::{copy_range, ignore_file_name, rules_of_text};
use crate::scope::{pop_within, resolve_scopes, ScopeModel, ScopeStack};

verus! {

/// One entry of a directory listing, in mathematical form.
pub struct EntryModel {
    pub name: Seq<char>,
    pub is_dir: bool,
}

/// One entry of a directory listing: its name (no separator in it) and whether
/// it is a directory. A symbolic link is listed as a plain entry.
#[derive(Debug)]
pub struct Entry {
    pub name: Vec<char>,
    pub is_dir: bool,
}

impl View for Entry {
    type V = EntryModel;

    open spec fn view(&self) -> EntryModel {
        EntryModel { name: self.name@, is_dir: self.is_dir }
    }
}

/// Work left for the walk, in mathematical form.
pub enum TaskModel {
    File(Seq<char>),
    Dir(Seq<char>),
    Leave(Seq<char>),
}

/// Work left for the walk: emit a file, list a directory, or leave a directory
/// whose children are all done.
#[derive(Debug)]
pub enum Task {
    File(Vec<char>),
    Dir(Vec<char>),
    Leave(Vec<char>),
}

impl View for Task {
    type V = TaskModel;

    open spec fn view(&self) -> TaskModel {
        match self {
            Task::File(p) => TaskModel::File(p@),
            Task::Dir(p) => TaskModel::Dir(p@),
            Task::Leave(p) => TaskModel::Leave(p@),
        }
    }
}

/// Where the walk stands, and what it waits for.
#[derive(PartialEq, Eq, Structural, Clone, Copy, Debug)]
pub enum Phase {
    /// Work remains that needs nothing from outside.
    Running,
    /// Waits for the listing of `dir`.
    Listing,
    /// Waits for the text of the ignore file in `dir`.
    ReadingIgnoreFile,
    /// Every entry has been visited.
    Done,
    /// The root could not be listed: the scan has failed.
    Failed,
}

/// Why a scan produced no result.
#[derive(PartialEq, Eq, Structural, Clone, Copy, Debug)]
pub enum ScanError {
    /// The root does not exist or is not a directory.
    Root,
    /// The walk was not driven to its end.
    Unfinished,
}

/// The state of a walk, in mathematical form.
pub struct WalkerModel {
    pub scopes: Seq<ScopeModel>,
    pub todo: Seq<TaskModel>,
    pub found: Seq<Seq<char>>,
    pub unreadable: Seq<Seq<char>>,
    pub phase: Phase,
    pub dir: Seq<char>,
    pub pending: Seq<EntryModel>,
}

/// A depth-first walk of a directory tree that honours nested ignore files.
///
/// The walk asks for what it needs (a listing, the text of an ignore file)
/// and is handed it back; paths are relative to the root, with `/` between
/// components, and the root itself is the empty path.
#[derive(Debug)]
pub struct Walker {
    /// The matchers of the ignore files of the directory being visited and its ancestors.
    pub scopes: ScopeStack,
    /// Work left, the next piece last.
    pub todo: Vec<Task>,
    /// Files kept so far, in visiting order.
    pub found: Vec<Vec<char>>,
    /// Directories and ignore files that could not be read.
    pub unreadable: Vec<Vec<char>>,
    pub phase: Phase,
    /// The directory whose listing or ignore file the walk waits for.
    pub dir: Vec<char>,
    /// The listing of `dir`, held while its ignore file is read.
    pub pending: Vec<Entry>,
}

impl View for Walker {
    type V = WalkerModel;

    open spec fn view(&self) -> WalkerModel {
        WalkerModel {
            scopes: self.scopes@,
            todo: self.todo@.map_values(|t: Task| t@),
            found: self.found@.map_values(|p: Vec<char>| p@),
            unreadable: self.unreadable@.map_values(|p: Vec<char>| p@),
            phase: self.phase,
            dir: self.dir@,
            pending: self.pending@.map_values(|e: Entry| e@),
        }
    }
}

/// The path of the entry `name` of the directory `dir`.
pub open spec fn child_path(dir: Seq<char>, name: Seq<char>) -> Seq<char> {
    if dir.len() == 0 {
        name
    } else {
        dir.push(SEP) + name
    }
}

pub open spec fn same_letter(c: char, lower: char, upper: char) -> bool {
    c == lower || c == upper
}

/// Whether a name is `.git`, in any case.
pub open spec fn is_git_name(name: Seq<char>) -> bool {
    &&& name.len() == 4
    &&& name[0] == '.'
    &&& same_letter(name[1], 'g', 'G')
    &&& same_letter(name[2], 'i', 'I')
    &&& same_letter(name[3], 't', 'T')
}

/// Whether an entry is a plain file that holds its directory's ignore rules.
pub open spec fn is_ignore_file(e: EntryModel) -> bool {
    !e.is_dir && e.name == ignore_file_name()
}

/// Whether a listing holds an ignore file.
pub open spec fn has_ignore_file(es: Seq<EntryModel>) -> bool {
    exists|i: int| 0 <= i < es.len() && #[trigger] is_ignore_file(es[i])
}

/// Whether the walk keeps an entry of `dir`: not `.git`, not the ignore file,
/// and not ignored by the scopes.
pub open spec fn admitted(scopes: Seq<ScopeModel>, dir: Seq<char>, e: EntryModel) -> bool {
    &&& !is_git_name(e.name)
    &&& !is_ignore_file(e)
    &&& !resolve_scopes(scopes, child_path(dir, e.name), e.is_dir)
}

/// The task for a kept entry.
pub open spec fn task_of(dir: Seq<char>, e: EntryModel) -> TaskModel {
    if e.is_dir {
        TaskModel::Dir(child_path(dir, e.name))
    } else {
        TaskModel::File(child_path(dir, e.name))
    }
}

/// The tasks for the kept entries of a listing, last entry first, so that the
/// first entry is on top of the work stack.
pub open spec fn plan(scopes: Seq<ScopeModel>, dir: Seq<char>, es: Seq<EntryModel>) -> Seq<TaskModel>
    decreases es.len(),
{
    if es.len() == 0 {
        Seq::empty()
    } else {
        let rest = plan(scopes, dir, es.drop_first());
        if admitted(scopes, dir, es[0]) {
            rest.push(task_of(dir, es[0]))
        } else {
            rest
        }
    }
}

/// The state once the children of `m.dir` are scheduled after its listing `es`.
pub open spec fn schedule(m: WalkerModel, es: Seq<EntryModel>) -> WalkerModel {
    WalkerModel {
        todo: m.todo.push(TaskModel::Leave(m.dir)) + plan(m.scopes, m.dir, es),
        phase: Phase::Running,
        pending: Seq::empty(),
        ..m
    }
}

/// The state once the work that needs nothing from outside is done: files
/// are kept, directories left, up to the next directory to list.
pub open spec fn advance(m: WalkerModel) -> WalkerModel
    decreases m.todo.len(),
{
    if m.phase != Phase::Running {
        m
    } else if m.todo.len() == 0 {
        WalkerModel { phase: Phase::Done, ..m }
    } else {
        let rest = WalkerModel { todo: m.todo.drop_last(), ..m };
        match m.todo.last() {
            TaskModel::File(p) => advance(WalkerModel { found: m.found.push(p), ..rest }),
            TaskModel::Leave(d) => advance(WalkerModel { scopes: pop_within(m.scopes, d), ..rest }),
            TaskModel::Dir(d) => WalkerModel { phase: Phase::Listing, dir: d, ..rest },
        }
    }
}

/// The state once the listing of `m.dir` came back, or failed (`None`).
pub open spec fn after_listing(m: WalkerModel, listing: Option<Seq<EntryModel>>) -> WalkerModel {
    if m.phase != Phase::Listing {
        m
    } else {
        match listing {
            None => if m.dir.len() == 0 {
                WalkerModel { phase: Phase::Failed, ..m }
            } else {
                WalkerModel { unreadable: m.unreadable.push(m.dir), phase: Phase::Running, ..m }
            },
            Some(es) => if has_ignore_file(es) {
                WalkerModel { phase: Phase::ReadingIgnoreFile, pending: es, ..m }
            } else {
                schedule(m, es)
            },
        }
    }
}

/// The state once the text of the ignore file of `m.dir` came back, or could
/// not be read (`None`).
pub open spec fn after_ignore_file(m: WalkerModel, text: Option<Seq<char>>) -> WalkerModel {
    if m.phase != Phase::ReadingIgnoreFile {
        m
    } else {
        match text {
            Some(t) => schedule(
                WalkerModel {
                    scopes: m.scopes.push(ScopeModel { base: m.dir, rules: rules_of_text(t) }),
                    ..m
                },
                m.pending,
            ),
            None => schedule(
                WalkerModel {
                    unreadable: m.unreadable.push(child_path(m.dir, ignore_file_name())),
                    ..m
                },
                m.pending,
            ),
        }
    }
}

/// The state of a walk that has not started.
pub open spec fn initial() -> WalkerModel {
    WalkerModel {
        scopes: Seq::empty(),
        todo: seq![TaskModel::Dir(Seq::empty())],
        found: Seq::empty(),
        unreadable: Seq::empty(),
        phase: Phase::Running,
        dir: Seq::empty(),
        pending: Seq::empty(),
    }
}

/// The path of the entry `name` of the directory `dir`.
pub fn join_child(dir: &Vec<char>, name: &Vec<char>) -> (r: Vec<char>)
    ensures
        r@ == child_path(dir@, name@),
{
    let mut r: Vec<char> = copy_range(dir, 0, dir.len());
    assert(r@ =~= dir@);
    if dir.len() > 0 {
        r.push(SEP);
    }
    let ghost start = r@;
    let mut i: usize = 0;
    while i < name.len()
        invariant
            i <= name.len(),
            r@ == start + name@.subrange(0, i as int),
        decreases name.len() - i,
    {
        r.push(name[i]);
        assert(r@ =~= start + name@.subrange(0, i + 1));
        i = i + 1;
    }
    assert(name@.subrange(0, name.len() as int) =~= name@);
    assert(dir@.len() == 0 ==> start + name@ =~= name@);
    r
}

/// Whether a name is `.git`, in any case.
pub fn is_git(name: &Vec<char>) -> (r: bool)
    ensures
        r == is_git_name(name@),
{
    name.len() == 4 && name[0] == '.' && (name[1] == 'g' || name[1] == 'G') && (name[2] == 'i'
        || name[2] == 'I') && (name[3] == 't' || name[3] == 'T')
}

/// Whether a name is that of the ignore file.
pub fn is_ignore_file_name(name: &Vec<char>) -> (r: bool)
    ensures
        r == (name@ == ignore_file_name()),
{
    let r = name.len() == 10 && name[0] == '.' && name[1] == 'g' && name[2] == 'i' && name[3]
        == 't' && name[4] == 'i' && name[5] == 'g' && name[6] == 'n' && name[7] == 'o' && name[8]
        == 'r' && name[9] == 'e';
    if r {
        assert(name@ =~= ignore_file_name());
    } else if name.len() == 10 {
        assert(name@ != ignore_file_name()) by {
            if name@ == ignore_file_name() {
                assert(name@[0] == '.' && name@[1] == 'g' && name@[2] == 'i' && name@[3] == 't'
                    && name@[4] == 'i' && name@[5] == 'g' && name@[6] == 'n' && name@[7] == 'o'
                    && name@[8] == 'r' && name@[9] == 'e');
            }
        }
    }
    r
}


impl Walker {
    /// A walk that has not started; its first step lists the root.
    pub fn new() -> (w: Walker)
        ensures
            w@ == initial(),
    {
        let mut todo: Vec<Task> = Vec::new();
        todo.push(Task::Dir(Vec::new()));
        let w = Walker {
            scopes: ScopeStack::new(),
            todo,
            found: Vec::new(),
            unreadable: Vec::new(),
            phase: Phase::Running,
            dir: Vec::new(),
            pending: Vec::new(),
        };
        assert(w@.todo =~= initial().todo);
        assert(w@.found =~= Seq::<Seq<char>>::empty());
        assert(w@.unreadable =~= Seq::<Seq<char>>::empty());
        assert(w@.pending =~= Seq::<EntryModel>::empty());
        assert(w.dir@ =~= Seq::<char>::empty());
        w
    }

    /// Schedules the children of `dir` from its listing `es`: first the task
    /// that leaves `dir`, then the kept entries, the first entry on top.
    fn schedule_children(&mut self, es: &Vec<Entry>)
        ensures
            final(self)@ == schedule(old(self)@, es@.map_values(|e: Entry| e@)),
    {
        let ghost es_m = es@.map_values(|e: Entry| e@);
        let leave = copy_range(&self.dir, 0, self.dir.len());
        assert(self.dir@.subrange(0, self.dir.len() as int) =~= self.dir@);
        let ghost todo0 = self@.todo;
        self.todo.push(Task::Leave(leave));
        proof {
            assert(self@.todo =~= todo0.push(TaskModel::Leave(self.dir@)));
        }
        let ghost base = self@.todo;
        let n = es.len();
        let mut i: usize = n;
        assert(es_m.subrange(n as int, n as int) =~= Seq::<EntryModel>::empty());
        assert(base + plan(self.scopes@, self.dir@, es_m.subrange(n as int, n as int)) =~= base);
        while i > 0
            invariant
                i <= n == es.len(),
                es_m == es@.map_values(|e: Entry| e@),
                self.scopes@ == old(self)@.scopes,
                self.dir@ == old(self)@.dir,
                self.found == old(self).found,
                self.unreadable == old(self).unreadable,
                self.pending == old(self).pending,
                self.phase == old(self).phase,
                self@.todo == base + plan(self.scopes@, self.dir@, es_m.subrange(i as int, n as int)),
            decreases i,
        {
            let e = &es[i - 1];
            let ghost sub = es_m.subrange(i - 1, n as int);
            assert(sub.drop_first() =~= es_m.subrange(i as int, n as int));
            assert(sub[0] == e@);
            let path = join_child(&self.dir, &e.name);
            let keep = !is_git(&e.name) && !(!e.is_dir && is_ignore_file_name(&e.name))
                && !self.scopes.resolve(&path, e.is_dir);
            if keep {
                let ghost before = self@.todo;
                let task = if e.is_dir {
                    Task::Dir(path)
                } else {
                    Task::File(path)
                };
                assert(task@ == task_of(self.dir@, e@));
                self.todo.push(task);
                assert(self@.todo =~= before.push(task@));
            }
            i = i - 1;
        }
        assert(es_m.subrange(0, n as int) =~= es_m);
        self.phase = Phase::Running;
        self.pending = Vec::new();
        assert(self@.pending =~= Seq::<EntryModel>::empty());
    }

    /// Does the work that needs nothing from outside (keeps files, leaves
    /// directories) and tells what the walk waits for next.
    pub fn next_action(&mut self) -> (p: Phase)
        ensures
            final(self)@ == advance(old(self)@),
            p == final(self).phase,
            p != Phase::Running,
    {
        if self.phase != Phase::Running {
            return self.phase;
        }
        loop
            invariant
                self.phase == Phase::Running,
                advance(self@) == advance(old(self)@),
            decreases self.todo.len(),
        {
            let ghost m = self@;
            let popped = self.todo.pop();
            proof {
                if m.todo.len() > 0 {
                    assert(self@.todo =~= m.todo.drop_last());
                    assert(popped.unwrap()@ == m.todo.last());
                }
            }
            match popped {
                None => {
                    self.phase = Phase::Done;
                    return Phase::Done;
                },
                Some(Task::File(p)) => {
                    let ghost f = self@.found;
                    self.found.push(p);
                    assert(self@.found =~= f.push(p@));
                    assert(self@ == WalkerModel { found: m.found.push(p@), todo: m.todo.drop_last(), ..m });
                },
                Some(Task::Leave(d)) => {
                    self.scopes.pop_within(&d);
                    assert(self@ == WalkerModel { scopes: pop_within(m.scopes, d@), todo: m.todo.drop_last(), ..m });
                },
                Some(Task::Dir(d)) => {
                    self.dir = d;
                    self.phase = Phase::Listing;
                    return Phase::Listing;
                },
            }
        }
    }

    /// Hands the walk the listing of `dir` it waits for, or `None` where the
    /// directory could not be read. A root that cannot be listed fails the
    /// scan; another directory that cannot be listed is recorded and skipped.
    pub fn give_listing(&mut self, listing: Option<Vec<Entry>>)
        ensures
            final(self)@ == after_listing(
                old(self)@,
                match listing {
                    Some(es) => Some(es@.map_values(|e: Entry| e@)),
                    None => None,
                },
            ),
    {
        if self.phase != Phase::Listing {
            return;
        }
        match listing {
            None => {
                if self.dir.len() == 0 {
                    self.phase = Phase::Failed;
                } else {
                    let ghost u = self@.unreadable;
                    let d = copy_range(&self.dir, 0, self.dir.len());
                    assert(self.dir@.subrange(0, self.dir.len() as int) =~= self.dir@);
                    self.unreadable.push(d);
                    assert(self@.unreadable =~= u.push(self.dir@));
                    self.phase = Phase::Running;
                }
            },
            Some(es) => {
                let ghost es_m = es@.map_values(|e: Entry| e@);
                let mut found_ignore = false;
                let mut i: usize = 0;
                while i < es.len()
                    invariant
                        i <= es.len(),
                        es_m == es@.map_values(|e: Entry| e@),
                        found_ignore == exists|j: int| 0 <= j < i && #[trigger] is_ignore_file(es_m[j]),
                    decreases es.len() - i,
                {
                    assert(es_m[i as int] == es[i as int]@);
                    if !es[i].is_dir && is_ignore_file_name(&es[i].name) {
                        found_ignore = true;
                        assert(is_ignore_file(es_m[i as int]));
                    }
                    i = i + 1;
                }
                if found_ignore {
                    self.pending = es;
                    self.phase = Phase::ReadingIgnoreFile;
                } else {
                    self.schedule_children(&es);
                }
            },
        }
    }

    /// Hands the walk the text of the ignore file of `dir` it waits for, or
    /// `None` where it could not be read (the file is recorded and the
    /// directory is walked without it).
    pub fn give_ignore_file(&mut self, text: Option<&str>)
        ensures
            final(self)@ == after_ignore_file(
                old(self)@,
                match text {
                    Some(t) => Some(t@),
                    None => None,
                },
            ),
    {
        if self.phase != Phase::ReadingIgnoreFile {
            return;
        }
        let ghost m = self@;
        let mut es: Vec<Entry> = Vec::new();
        core::mem::swap(&mut es, &mut self.pending);
        assert(es@.map_values(|e: Entry| e@) == m.pending);
        match text {
            Some(t) => {
                let m = Matcher::compile(t);
                let base = copy_range(&self.dir, 0, self.dir.len());
                assert(self.dir@.subrange(0, self.dir.len() as int) =~= self.dir@);
                self.scopes.push(base, m);
            },
            None => {
                let ghost u = self@.unreadable;
                let name = vec!['.', 'g', 'i', 't', 'i', 'g', 'n', 'o', 'r', 'e'];
                assert(name@ =~= ignore_file_name());
                let p = join_child(&self.dir, &name);
                self.unreadable.push(p);
                assert(self@.unreadable =~= u.push(p@));
            },
        }
        self.schedule_children(&es);
    }

    /// The files kept, in visiting order, once the walk is done; the root's
    /// error where it failed.
    pub fn finish(self) -> (r: Result<Vec<Vec<char>>, ScanError>)
        ensures
            self.phase == Phase::Done ==> r is Ok && r->Ok_0@.map_values(|p: Vec<char>| p@)
                == self@.found,
            self.phase == Phase::Failed ==> r == Err::<Vec<Vec<char>>, ScanError>(ScanError::Root),
            self.phase != Phase::Done && self.phase != Phase::Failed ==> r == Err::<
                Vec<Vec<char>>,
                ScanError,
            >(ScanError::Unfinished),
    {
        match self.phase {
            Phase::Done => Ok(self.found),
            Phase::Failed => Err(ScanError::Root),
            _ => Err(ScanError::Unfinished),
        }
    }
}

} // verus!
