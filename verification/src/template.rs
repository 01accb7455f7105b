//! Template records: the parsed form of one template's metadata descriptor,
//! plus the per-file substitution step that consults it.
//!
//! A template lives in one subdirectory of the template store; the
//! subdirectory's base name is the template's id, and its descriptor is the
//! file named `<id>.meta.toml` inside it. The descriptor's own file name is
//! always an ignored entry, so it is never subject to substitution.

use crate::paths::{join_components, list_view, should_skip, skip_spec};
use crate::subst::{bindings_view, bytes_copy, subst_all, substitute, Binding};
use vstd::prelude::*;

verus! {

/// One variable a template declares: its name and the prompt text shown
/// when the user is asked for its value.
pub struct Variable {
    /// The variable's name; its placeholder token is `<` + lowercase(name) + `>`.
    pub name: Vec<u8>,
    /// The prompt text shown to the user.
    pub prompt: Vec<u8>,
}

/// The bytes of the literal suffix `.meta.toml`.
pub open spec fn meta_suffix() -> Seq<u8> {
    seq![46u8, 109u8, 101u8, 116u8, 97u8, 46u8, 116u8, 111u8, 109u8, 108u8]
}

/// The descriptor file name of the template with the given id:
/// `<id>.meta.toml`.
pub open spec fn meta_name_spec(id: Seq<u8>) -> Seq<u8> {
    id + meta_suffix()
}

/// Build the descriptor file name `<id>.meta.toml`.
pub fn meta_file_name(id: &Vec<u8>) -> (out: Vec<u8>)
    ensures
        out@ == meta_name_spec(id@),
{
    let mut out = bytes_copy(id);
    out.push(46);
    out.push(109);
    out.push(101);
    out.push(116);
    out.push(97);
    out.push(46);
    out.push(116);
    out.push(111);
    out.push(109);
    out.push(108);
    proof {
        assert(out@ =~= meta_name_spec(id@));
    }
    out
}

/// One template of the store: parsed descriptor fields plus the id of the
/// subdirectory it was found in.
pub struct Template {
    /// Base name of the template's subdirectory in the store.
    pub id: Vec<u8>,
    /// Display name, the key under which the catalog lists the template.
    pub name: Vec<u8>,
    /// Entries excluded from substitution: full destination-relative paths
    /// of files, or base names of directories.
    pub ignored: Vec<Vec<u8>>,
    /// The declared variables, in declaration order.
    pub variables: Vec<Variable>,
}

impl Template {
    /// A template's descriptor file name is among its ignored entries.
    pub open spec fn wf(self) -> bool {
        list_view(self.ignored@).contains(meta_name_spec(self.id@))
    }

    /// Build a template record from its parsed descriptor fields. The
    /// descriptor's own file name is appended to the ignored entries, so a
    /// well-formed template never substitutes into its descriptor.
    pub fn new(id: Vec<u8>, name: Vec<u8>, ignored: Vec<Vec<u8>>, variables: Vec<Variable>) -> (t:
        Template)
        ensures
            t.id@ == id@,
            t.name@ == name@,
            t.variables == variables,
            list_view(t.ignored@) == list_view(ignored@).push(meta_name_spec(id@)),
            t.wf(),
    {
        let meta = meta_file_name(&id);
        let mut ig = ignored;
        ig.push(meta);
        let t = Template { id, name, ignored: ig, variables };
        proof {
            assert(list_view(t.ignored@) =~= list_view(ignored@).push(meta_name_spec(t.id@)));
            assert(list_view(t.ignored@)[list_view(t.ignored@).len() - 1] == meta_name_spec(
                t.id@,
            ));
        }
        t
    }

    /// Process one destination file: leave it untouched (`None`) when the
    /// ignore rules skip its relative path, otherwise return its content
    /// with every binding substituted, one full pass per binding in order.
    pub fn process_file(
        &self,
        rel_components: &Vec<Vec<u8>>,
        content: Vec<u8>,
        bindings: &Vec<Binding>,
    ) -> (out: Option<Vec<u8>>)
        ensures
            match out {
                Option::None => skip_spec(list_view(rel_components@), list_view(self.ignored@)),
                Option::Some(c) => !skip_spec(
                    list_view(rel_components@),
                    list_view(self.ignored@),
                ) && c@ == subst_all(content@, bindings_view(bindings@)),
            },
    {
        if should_skip(rel_components, &self.ignored) {
            None
        } else {
            Some(substitute(content, bindings))
        }
    }
}

/// The descriptor file is never substituted: for every well-formed
/// template, a file named `<id>.meta.toml` at the destination root is
/// skipped by the ignore rules.
pub proof fn lemma_meta_file_skipped(t: Template)
    requires
        t.wf(),
    ensures
        skip_spec(seq![meta_name_spec(t.id@)], list_view(t.ignored@)),
{
    let cs: Seq<Seq<u8>> = seq![meta_name_spec(t.id@)];
    assert(join_components(cs) == cs[0]);
}

} // verus!
