//! How `require` finds modules, and what the host hands the interpreter besides the script.
use vstd::prelude::*;
use vstd::string::*;

verus! {

/// Source of a module that `require` resolved to.
#[derive(Debug, Clone, PartialEq, Eq)]
pub struct ModuleSource {
    /// Name that appears in tracebacks and in `SourceLocation`.
    pub chunk_name: String,
    pub source: String,
}

/// Supplies module sources to `require`, in place of the filesystem search Lua would do on its own.
pub trait ModuleLoader {
    /// Returns the source of `module`, `None` when this loader does not provide it,
    /// and `Err` when it should have provided it but could not.
    fn load(&self, module: &str) -> Result<Option<ModuleSource>, String>;
}

/// A character a segment of a module name may hold.
pub open spec fn is_name_char(c: char) -> bool {
    ('a' <= c && c <= 'z') || ('A' <= c && c <= 'Z') || ('0' <= c && c <= '9') || c == '_' || c == '-'
}

/// A name made of one or more segments of ASCII letters, digits, `_` and `-`, separated by
/// single dots. Only such a name can be turned into a relative path that stays inside a library
/// directory.
pub open spec fn safe_module_name(module: Seq<char>) -> bool {
    &&& module.len() > 0
    &&& forall|i: int|
        0 <= i < module.len() ==> is_name_char(#[trigger] module[i]) || (module[i] == '.' && 0 < i && i + 1
            < module.len() && module[i + 1] != '.')
}

fn name_char(c: char) -> (accepted: bool)
    ensures
        accepted == is_name_char(c),
{
    ('a' <= c && c <= 'z') || ('A' <= c && c <= 'Z') || ('0' <= c && c <= '9') || c == '_' || c == '-'
}

/// Whether a module name can be turned into a relative path without escaping the library
/// directory.
pub fn is_safe_module_name(module: &str) -> (safe: bool)
    ensures
        safe == safe_module_name(module@),
{
    let len = module.unicode_len();
    if len == 0 {
        return false;
    }
    let mut i: usize = 0;
    while i < len
        invariant
            len == module@.len(),
            i <= len,
            forall|k: int|
                0 <= k < i ==> is_name_char(#[trigger] module@[k]) || (module@[k] == '.' && 0 < k && k + 1
                    < module@.len() && module@[k + 1] != '.'),
        decreases len - i,
    {
        let c = module.get_char(i);
        if !name_char(c) {
            let accepted = c == '.' && 0 < i && i + 1 < len && module.get_char(i + 1) != '.';
            if !accepted {
                assert(!(is_name_char(module@[i as int]) || (module@[i as int] == '.' && 0 < i && i + 1
                    < module@.len() && module@[i + 1] != '.')));
                return false;
            }
        }
        i = i + 1;
    }
    true
}

/// The path a module name stands for, relative to a library directory: every dot becomes a slash.
pub open spec fn path_of_module(module: Seq<char>) -> Seq<char> {
    module.map_values(|c: char| if c == '.' { '/' } else { c })
}

/// A name that passes the check becomes a path that cannot leave the directory it is searched
/// in: it is not empty, does not start or end with a separator, never has two separators in a
/// row, and holds no dot and no backslash, so no segment of it can lead to a parent directory.
pub proof fn law_safe_names_stay_inside(module: Seq<char>)
    requires
        safe_module_name(module),
    ensures
        path_of_module(module).len() > 0,
        path_of_module(module)[0] != '/',
        path_of_module(module).last() != '/',
        forall|i: int|
            0 <= i < path_of_module(module).len() ==> is_name_char(#[trigger] path_of_module(module)[i])
                || path_of_module(module)[i] == '/',
        forall|i: int|
            0 <= i < path_of_module(module).len() - 1 && #[trigger] path_of_module(module)[i] == '/'
                ==> path_of_module(module)[i + 1] != '/',
{
    let path = path_of_module(module);
    assert(is_name_char(module[0]));
    assert(is_name_char(module[module.len() - 1]));
    assert forall|i: int| 0 <= i < path.len() - 1 && #[trigger] path[i] == '/' implies path[i + 1] != '/' by {
        assert(module[i] == '.');
        assert(is_name_char(module[i + 1]) || module[i + 1] == '.');
    }
}

fn relative_path(module: &str) -> (path: String)
    ensures
        path@ == path_of_module(module@),
{
    let len = module.unicode_len();
    let mut path = String::new();
    let mut start: usize = 0;
    let mut i: usize = 0;
    while i < len
        invariant
            len == module@.len(),
            start <= i <= len,
            path@ == path_of_module(module@.take(start as int)),
            forall|k: int| start <= k < i ==> module@[k] != '.',
        decreases len - i,
    {
        if module.get_char(i) == '.' {
            let segment = module.substring_char(start, i);
            path.append(segment);
            path.append("/");
            proof {
                reveal_strlit("/");
                assert(path@ =~= path_of_module(module@.take(i + 1)));
            }
            start = i + 1;
        }
        i = i + 1;
    }
    let rest = module.substring_char(start, len);
    path.append(rest);
    assert(module@.take(len as int) =~= module@);
    assert(path@ =~= path_of_module(module@));
    path
}

/// Loader that reads `<dir>/a/b.lua` and `<dir>/a/b/init.lua` for `require "a.b"`.
#[derive(Debug, Clone)]
pub struct DirectoryLoader {
    directories: Vec<String>,
}

impl DirectoryLoader {
    pub fn new(directories: Vec<String>) -> (loader: DirectoryLoader)
        ensures
            loader.directories() == directories@,
    {
        DirectoryLoader { directories }
    }

    /// The directories searched, in order.
    pub closed spec fn directories(&self) -> Seq<String> {
        self.directories@
    }

    pub fn directory_list(&self) -> (directories: &Vec<String>)
        ensures
            directories@ == self.directories(),
    {
        &self.directories
    }

    /// The files that may hold `module`, in the order they are tried: in each directory in turn,
    /// first the module's path with `.lua` appended, then `init.lua` inside the directory of that
    /// path. Each is given as the directory and the path relative to it.
    pub fn candidates(&self, module: &str) -> (found: Vec<(String, String)>)
        ensures
            found@.len() == 2 * self.directories().len(),
            forall|k: int|
                0 <= k < self.directories().len() ==> {
                    &&& (#[trigger] found@[2 * k]).0@ == self.directories()[k]@
                    &&& found@[2 * k].1@ == path_of_module(module@) + ".lua"@
                    &&& found@[2 * k + 1].0@ == self.directories()[k]@
                    &&& found@[2 * k + 1].1@ == path_of_module(module@) + "/init.lua"@
                },
    {
        let relative = relative_path(module);
        let mut found: Vec<(String, String)> = Vec::new();
        let mut i: usize = 0;
        while i < self.directories.len()
            invariant
                i <= self.directories@.len(),
                relative@ == path_of_module(module@),
                found@.len() == 2 * i,
                forall|k: int|
                    0 <= k < i ==> {
                        &&& (#[trigger] found@[2 * k]).0@ == self.directories@[k]@
                        &&& found@[2 * k].1@ == path_of_module(module@) + ".lua"@
                        &&& found@[2 * k + 1].0@ == self.directories@[k]@
                        &&& found@[2 * k + 1].1@ == path_of_module(module@) + "/init.lua"@
                    },
            decreases self.directories@.len() - i,
        {
            let directory = &self.directories[i];
            let mut file = relative.clone();
            file.append(".lua");
            let mut init = relative.clone();
            init.append("/init.lua");
            let ghost before = found@;
            found.push((directory.clone(), file));
            found.push((directory.clone(), init));
            proof {
                assert forall|k: int| 0 <= k < i + 1 implies {
                    &&& (#[trigger] found@[2 * k]).0@ == self.directories@[k]@
                    &&& found@[2 * k].1@ == path_of_module(module@) + ".lua"@
                    &&& found@[2 * k + 1].0@ == self.directories@[k]@
                    &&& found@[2 * k + 1].1@ == path_of_module(module@) + "/init.lua"@
                } by {
                    if k < i {
                        assert(found@[2 * k] == before[2 * k]);
                        assert(found@[2 * k + 1] == before[2 * k + 1]);
                    }
                }
            }
            i = i + 1;
        }
        found
    }
}

/// Turns a name into a Lua chunk name that reports itself verbatim in tracebacks.
pub fn chunk_name(name: &str) -> (chunk: String)
    ensures
        chunk@ == "@"@ + name@,
{
    let mut chunk = String::from_str("@");
    chunk.append(name);
    chunk
}

/// A loader that `require` consults: a search of library directories, or one the host supplies.
#[derive(Debug, Clone)]
pub enum Loader<C> {
    Directories(DirectoryLoader),
    Custom(C),
}

/// What the host gives the interpreter besides the script itself: the symbols `da.symbol`
/// reports as supplied, and the loaders `require` consults, in order. `C` is the type of the
/// loaders the host supplies itself.
#[derive(Debug, Clone)]
pub struct EvaluateOptions<C> {
    symbols: Vec<String>,
    loaders: Vec<Loader<C>>,
}

impl<C> EvaluateOptions<C> {
    /// No symbol is held twice.
    pub closed spec fn wf(&self) -> bool {
        forall|i: int, j: int|
            0 <= i < j < self.symbols@.len() ==> #[trigger] self.symbols@[i]@ != #[trigger] self.symbols@[j]@
    }

    /// The names `da.symbol` reports as supplied.
    pub closed spec fn symbol_set(&self) -> Set<Seq<char>> {
        Set::new(|name: Seq<char>| exists|i: int| 0 <= i < self.symbols@.len() && self.symbols@[i]@ == name)
    }

    /// The loaders `require` consults, in order.
    pub closed spec fn loaders(&self) -> Seq<Loader<C>> {
        self.loaders@
    }

    pub fn new() -> (options: EvaluateOptions<C>)
        ensures
            options.wf(),
            options.symbol_set() == Set::<Seq<char>>::empty(),
            options.loaders() == Seq::<Loader<C>>::empty(),
    {
        let options = EvaluateOptions { symbols: Vec::new(), loaders: Vec::new() };
        assert(options.symbol_set() =~= Set::<Seq<char>>::empty());
        options
    }

    /// Whether `da.symbol(name)` reports the symbol as supplied.
    pub fn has_symbol(&self, name: &str) -> (supplied: bool)
        requires
            self.wf(),
        ensures
            supplied == self.symbol_set().contains(name@),
    {
        let wanted = name.to_owned();
        let mut i: usize = 0;
        while i < self.symbols.len()
            invariant
                i <= self.symbols@.len(),
                wanted@ == name@,
                forall|k: int| 0 <= k < i ==> self.symbols@[k]@ != name@,
            decreases self.symbols@.len() - i,
        {
            if self.symbols[i] == wanted {
                assert(self.symbol_set().contains(name@));
                return true;
            }
            i = i + 1;
        }
        false
    }

    /// Names that `da.symbol` reports as supplied, added to those already given.
    pub fn symbols(self, names: Vec<String>) -> (options: EvaluateOptions<C>)
        requires
            self.wf(),
        ensures
            options.wf(),
            options.symbol_set() == self.symbol_set().union(
                Set::new(|name: Seq<char>| exists|i: int| 0 <= i < names@.len() && names@[i]@ == name),
            ),
            options.loaders() == self.loaders(),
    {
        let ghost added = Set::new(|name: Seq<char>| exists|i: int| 0 <= i < names@.len() && names@[i]@ == name);
        let ghost original = self.symbol_set();
        let mut options = self;
        let mut i: usize = 0;
        while i < names.len()
            invariant
                i <= names@.len(),
                options.wf(),
                options.loaders() == self.loaders(),
                original == self.symbol_set(),
                added == Set::new(|name: Seq<char>| exists|i: int| 0 <= i < names@.len() && names@[i]@ == name),
                options.symbol_set() == original.union(
                    Set::new(|name: Seq<char>| exists|k: int| 0 <= k < i && names@[k]@ == name),
                ),
            decreases names@.len() - i,
        {
            let name = &names[i];
            let ghost before = options.symbols@;
            let ghost before_set = options.symbol_set();
            if !options.has_symbol(name.as_str()) {
                options.symbols.push(name.clone());
                proof {
                    assert forall|a: int, b: int|
                        0 <= a < b < options.symbols@.len() implies #[trigger] options.symbols@[a]@
                        != #[trigger] options.symbols@[b]@ by {
                        if b == before.len() {
                            assert(options.symbols@[a] == before[a]);
                            assert(!(exists|k: int| 0 <= k < before.len() && before[k]@ == name@));
                        }
                    }
                }
            }
            proof {
                let next = Set::new(|n: Seq<char>| exists|k: int| 0 <= k < i + 1 && names@[k]@ == n);
                let prev = Set::new(|n: Seq<char>| exists|k: int| 0 <= k < i && names@[k]@ == n);
                assert(before_set == original.union(prev));
                assert(names@[i as int]@ == name@);
                assert forall|n: Seq<char>| #[trigger] options.symbol_set().contains(n) == original.union(
                    next,
                ).contains(n) by {
                    if n == name@ {
                        assert(next.contains(n));
                        if exists|k: int| 0 <= k < before.len() && before[k]@ == n {
                            let k = choose|k: int| 0 <= k < before.len() && before[k]@ == n;
                            assert(options.symbols@[k] == before[k]);
                        } else {
                            assert(options.symbols@[before.len() as int]@ == n);
                        }
                        assert(options.symbol_set().contains(n));
                    } else {
                        assert(options.symbol_set().contains(n) == before_set.contains(n)) by {
                            if options.symbol_set().contains(n) {
                                let k = choose|k: int| 0 <= k < options.symbols@.len() && options.symbols@[k]@ == n;
                                assert(k < before.len());
                                assert(before[k]@ == n);
                            }
                            if before_set.contains(n) {
                                let k = choose|k: int| 0 <= k < before.len() && before[k]@ == n;
                                assert(options.symbols@[k] == before[k]);
                            }
                        }
                        assert(next.contains(n) == prev.contains(n)) by {
                            if next.contains(n) {
                                let k = choose|k: int| 0 <= k < i + 1 && names@[k]@ == n;
                                assert(k < i);
                            }
                        }
                    }
                }
                assert(options.symbol_set() =~= original.union(next));
            }
            i = i + 1;
        }
        assert(Set::new(|name: Seq<char>| exists|k: int| 0 <= k < names@.len() && names@[k]@ == name) =~= added);
        options
    }

    /// Appends a loader that `require` consults, after the ones already added.
    pub fn loader(self, loader: C) -> (options: EvaluateOptions<C>)
        ensures
            self.wf() ==> options.wf(),
            options.symbol_set() == self.symbol_set(),
            options.loaders() == self.loaders().push(Loader::Custom(loader)),
    {
        let mut options = self;
        options.loaders.push(Loader::Custom(loader));
        options
    }

    /// Appends a loader that reads modules from the given directories.
    pub fn library_paths(self, directories: Vec<String>) -> (options: EvaluateOptions<C>)
        ensures
            self.wf() ==> options.wf(),
            options.symbol_set() == self.symbol_set(),
            options.loaders().len() == self.loaders().len() + 1,
            options.loaders().drop_last() == self.loaders(),
            options.loaders().last() matches Loader::Directories(loader) && loader.directories() == directories@,
    {
        let mut options = self;
        options.loaders.push(Loader::Directories(DirectoryLoader::new(directories)));
        assert(options.loaders().drop_last() =~= self.loaders());
        options
    }

    /// The loaders `require` consults, in order.
    pub fn loader_list(&self) -> (loaders: &Vec<Loader<C>>)
        ensures
            loaders@ == self.loaders(),
    {
        &self.loaders
    }
}

impl<C> Default for EvaluateOptions<C> {
    fn default() -> (options: EvaluateOptions<C>)
        ensures
            options.wf(),
            options.symbol_set() == Set::<Seq<char>>::empty(),
            options.loaders() == Seq::<Loader<C>>::empty(),
    {
        EvaluateOptions::new()
    }
}

/// Where the search for a module's file goes once a candidate has been looked at.
#[derive(Debug, Clone, Copy, PartialEq, Eq)]
pub enum CandidateStep {
    /// Read this candidate: it is a file.
    Read(usize),
    /// Look at this candidate next.
    Look(usize),
    /// No candidate is left: the module is not in these directories.
    Exhausted,
}

/// Where the search starts among `count` candidates.
pub fn first_candidate(count: usize) -> (step: CandidateStep)
    ensures
        step == if count == 0 {
            CandidateStep::Exhausted
        } else {
            CandidateStep::Look(0)
        },
{
    if count == 0 {
        CandidateStep::Exhausted
    } else {
        CandidateStep::Look(0)
    }
}

/// Where the search goes after candidate `index` of `count` was looked at: it is read when it is
/// a file, and otherwise the next one is looked at, until none is left.
pub fn after_candidate(index: usize, count: usize, is_file: bool) -> (step: CandidateStep)
    requires
        index < count,
    ensures
        step == if is_file {
            CandidateStep::Read(index)
        } else if index + 1 < count {
            CandidateStep::Look((index + 1) as usize)
        } else {
            CandidateStep::Exhausted
        },
{
    if is_file {
        CandidateStep::Read(index)
    } else if index + 1 < count {
        CandidateStep::Look(index + 1)
    } else {
        CandidateStep::Exhausted
    }
}

} // verus!
