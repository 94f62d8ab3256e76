//! The library the compiler carries, which is Lumen source rather than anything written in Rust.
//!
//! Each module of it has a fixed name and a place in the order it is read, the prelude first;
//! the source of each is handed over by whoever reads the files.
use vstd::prelude::*;
use vstd::string::*;

use crate::text::{same_text, slice_texts, texts};

verus! {

/// The module whose names are in scope everywhere without being imported.
pub const PRELUDE: &'static str = "prelude";

/// How many modules the library holds.
pub const MODULES: usize = 8;

/// The names of the library's modules, in the order it reads them, the prelude first.
pub open spec fn carried_names() -> Seq<Seq<char>> {
    seq![
        "prelude"@,
        "io"@,
        "files"@,
        "environment"@,
        "list"@,
        "strings"@,
        "map"@,
        "set"@,
    ]
}

/// The names of the library's modules, in the order it reads them, the prelude first.
pub fn module_names() -> (names: Vec<&'static str>)
    ensures
        slice_texts(names@) == carried_names(),
{
    let names = vec!["prelude", "io", "files", "environment", "list", "strings", "map", "set"];
    assert(slice_texts(names@) =~= carried_names());
    names
}

/// Every module the library holds, each with the source it is written in.
pub struct Library {
    modules: Vec<(String, String)>,
}

impl Library {
    /// The names of the modules, in order.
    pub closed spec fn names(&self) -> Seq<Seq<char>> {
        self.modules@.map_values(|module: (String, String)| module.0@)
    }

    /// The source of each module, in the same order.
    pub closed spec fn sources(&self) -> Seq<Seq<char>> {
        self.modules@.map_values(|module: (String, String)| module.1@)
    }

    /// Whether the modules are the library's, named and ordered as it reads them.
    pub closed spec fn well_formed(&self) -> bool {
        self.names() == carried_names()
    }

    /// A library that is well formed names the library's modules, in the order it reads them,
    /// and holds one source for each.
    pub proof fn lemma_well_formed(&self)
        ensures
            self.well_formed() <==> self.names() == carried_names(),
            self.sources().len() == self.names().len(),
    {
    }

    /// The library whose modules, in the order `carried_names` gives them, hold `sources`.
    pub fn of(sources: Vec<String>) -> (library: Library)
        requires
            sources.len() == MODULES,
        ensures
            library.well_formed(),
            library.sources() == texts(sources@),
    {
        let names = module_names();
        assert(slice_texts(names@).len() == names@.len());
        assert(carried_names().len() == 8);
        let mut modules: Vec<(String, String)> = Vec::new();
        let mut i: usize = 0;
        while i < MODULES
            invariant
                i <= MODULES,
                sources.len() == MODULES,
                slice_texts(names@) == carried_names(),
                names@.len() == MODULES,
                modules@.len() == i,
                forall|j: int|
                    0 <= j < i ==> modules@[j].0@ == carried_names()[j] && modules@[j].1@
                        == sources@[j]@,
            decreases MODULES - i,
        {
            let name = String::from_str(names[i]);
            assert(slice_texts(names@)[i as int] == names@[i as int]@);
            modules.push((name, sources[i].clone()));
            i = i + 1;
        }
        let library = Library { modules };
        assert(library.names() =~= carried_names());
        assert(library.sources() =~= texts(sources@));
        library
    }
}

/// The index of the first name of `names` that is `module`, when one is.
pub open spec fn first_index_of(names: Seq<Seq<char>>, module: Seq<char>) -> Option<int> {
    if exists|i: int| 0 <= i < names.len() && names[i] == module {
        Some(
            choose|i: int|
                0 <= i < names.len() && names[i] == module && forall|j: int|
                    0 <= j < i ==> names[j] != module,
        )
    } else {
        None
    }
}

/// The source the library module called `module` is written in, when the library holds one.
pub open spec fn spec_source_of(library: &Library, module: Seq<char>) -> Option<Seq<char>> {
    match first_index_of(library.names(), module) {
        Some(i) => Some(library.sources()[i]),
        None => None,
    }
}

/// The source the library module called `module` is written in, when the library holds one.
pub fn source_of(library: &Library, module: &str) -> (source: Option<String>)
    ensures
        match source {
            Some(found) => spec_source_of(library, module@) == Some(found@),
            None => spec_source_of(library, module@) is None,
        },
{
    let mut i: usize = 0;
    while i < library.modules.len()
        invariant
            i <= library.modules@.len(),
            library.names().len() == library.modules@.len(),
            forall|j: int| 0 <= j < i ==> library.names()[j] != module@,
        decreases library.modules.len() - i,
    {
        let (name, source) = &library.modules[i];
        assert(library.names()[i as int] == name@);
        if same_text(name.as_str(), module) {
            let ghost names = library.names();
            assert(exists|k: int| 0 <= k < names.len() && names[k] == module@);
            let ghost chosen = first_index_of(names, module@)->0;
            assert(chosen == i as int) by {
                if chosen < i {
                } else if chosen > i {
                }
            }
            assert(library.sources()[i as int] == source@);
            return Some(source.clone());
        }
        i = i + 1;
    }
    None
}

/// The source an import of `module` reaches, when that name is the library's.
///
/// The prelude is not among them, because its names are in scope already and an import of it
/// would bring in what is there.
pub fn imported(library: &Library, module: &str) -> (source: Option<String>)
    ensures
        module@ == PRELUDE@ ==> source is None,
        module@ != PRELUDE@ ==> match source {
            Some(found) => spec_source_of(library, module@) == Some(found@),
            None => spec_source_of(library, module@) is None,
        },
{
    if same_text(module, PRELUDE) {
        return None;
    }
    source_of(library, module)
}

/// Every module the library holds, in the order it reads them, the prelude first.
pub fn carried(library: &Library) -> (modules: Vec<(String, String)>)
    ensures
        modules@.map_values(|module: (String, String)| module.0@) == library.names(),
        modules@.map_values(|module: (String, String)| module.1@) == library.sources(),
{
    let mut modules: Vec<(String, String)> = Vec::new();
    let mut i: usize = 0;
    while i < library.modules.len()
        invariant
            i <= library.modules@.len(),
            modules@.len() == i,
            forall|j: int|
                0 <= j < i ==> modules@[j].0@ == library.modules@[j].0@ && modules@[j].1@
                    == library.modules@[j].1@,
        decreases library.modules.len() - i,
    {
        let (name, source) = &library.modules[i];
        modules.push((name.clone(), source.clone()));
        i = i + 1;
    }
    assert(modules@.map_values(|module: (String, String)| module.0@) =~= library.names());
    assert(modules@.map_values(|module: (String, String)| module.1@) =~= library.sources());
    modules
}

} // verus!
