//! The modules the compiler declares, which nothing loads from source yet.
//!
//! Each reaches a JVM method the language cannot yet name. They become library modules over the
//! `extern` declaration that names one, and nothing a program writes changes when they do.
use vstd::prelude::*;

use crate::text::same_text;
use crate::types::{plain, views_of, Type, TypeView, STRING, RESULT};

verus! {

/// The module that writes to the terminal.
pub const IO: &'static str = "io";

/// The module that reads files.
pub const FILES: &'static str = "files";

/// Whether the compiler supplies `module`, rather than leaving it for loading to find a file.
///
/// Loading asks this before it looks for a file, so an import of one of these names reaches the
/// module declared here rather than a file that is not there.
pub fn supplies(module: &str) -> (supplied: bool)
    ensures
        supplied == (module@ == IO@ || module@ == FILES@),
{
    same_text(module, IO) || same_text(module, FILES)
}

/// The type `name` has inside `module`, as the specifications read it, when the module declares it.
pub open spec fn spec_declared(module: Seq<char>, name: Seq<char>) -> Option<TypeView> {
    if module == IO@ && (name == "print"@ || name == "println"@) {
        Some(TypeView::Function(seq![plain(STRING@)], Box::new(TypeView::Unit)))
    } else if module == FILES@ && name == "read"@ {
        Some(
            TypeView::Function(
                seq![plain(STRING@)],
                Box::new(TypeView::Named(RESULT@, seq![plain(STRING@), plain(STRING@)])),
            ),
        )
    } else {
        None
    }
}

/// The type of `name` inside `module`, when the module declares it.
///
/// What each module holds is this one table, so a name it does not hold is refused here rather
/// than anywhere further in.
pub fn declared(module: &str, name: &str) -> (found: Option<Type>)
    ensures
        match spec_declared(module@, name@) {
            Some(view) => found matches Some(t) && t@ == view,
            None => found is None,
        },
{
    if same_text(module, IO) && (same_text(name, "print") || same_text(name, "println")) {
        let mut taken: Vec<Type> = Vec::new();
        taken.push(Type::string());
        proof {
            crate::types::lemma_views_of(taken@);
            assert(views_of(taken@) =~= seq![plain(STRING@)]);
        }
        return Some(Type::function(taken, Type::Unit));
    }
    if same_text(module, FILES) && same_text(name, "read") {
        let mut taken: Vec<Type> = Vec::new();
        taken.push(Type::string());
        proof {
            crate::types::lemma_views_of(taken@);
            assert(views_of(taken@) =~= seq![plain(STRING@)]);
        }
        return Some(Type::function(taken, Type::result(Type::string(), Type::string())));
    }
    None
}

} // verus!
