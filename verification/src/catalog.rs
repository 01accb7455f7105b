//! The template catalog: an in-memory mapping from display name to
//! template, built once at startup by the registry scan and read once to
//! serve the selection prompt. Inserting under an existing name replaces
//! the earlier entry (the template discovered last wins).

use crate::paths::{bytes_eq, list_view};
use crate::template::Template;
use vstd::prelude::*;
use vstd::pervasive::VecAdditionalExecFns;

verus! {

/// The names of the templates, in storage order.
pub open spec fn names_of(ts: Seq<Template>) -> Seq<Seq<u8>> {
    ts.map_values(|t: Template| t.name@)
}

/// No two templates share a display name.
pub open spec fn names_unique(ts: Seq<Template>) -> bool {
    forall|i: int, j: int| 0 <= i < j < ts.len() ==> ts[i].name@ != ts[j].name@
}

/// The mapping from display name to template that a list of templates
/// denotes; a later entry with the same name shadows an earlier one.
pub open spec fn map_of(ts: Seq<Template>) -> Map<Seq<u8>, Template>
    decreases ts.len(),
{
    if ts.len() == 0 {
        Map::<Seq<u8>, Template>::empty()
    } else {
        map_of(ts.drop_last()).insert(ts.last().name@, ts.last())
    }
}

/// A name is in the denoted mapping exactly when some entry bears it.
pub proof fn lemma_map_of_dom(ts: Seq<Template>, n: Seq<u8>)
    ensures
        map_of(ts).dom().contains(n) <==> exists|i: int| 0 <= i < ts.len() && ts[i].name@ == n,
    decreases ts.len(),
{
    if ts.len() > 0 {
        lemma_map_of_dom(ts.drop_last(), n);
        if ts.last().name@ == n {
            assert(ts[ts.len() - 1].name@ == n);
        } else if map_of(ts).dom().contains(n) {
            let i = choose|i: int| 0 <= i < ts.drop_last().len() && ts.drop_last()[i].name@ == n;
            assert(ts[i].name@ == n);
        } else if exists|i: int| 0 <= i < ts.len() && ts[i].name@ == n {
            let i = choose|i: int| 0 <= i < ts.len() && ts[i].name@ == n;
            assert(ts.drop_last()[i].name@ == n);
        }
    }
}

/// With unique names, the denoted mapping sends each entry's name to that
/// entry.
pub proof fn lemma_map_of_index(ts: Seq<Template>, i: int)
    requires
        names_unique(ts),
        0 <= i < ts.len(),
    ensures
        map_of(ts).dom().contains(ts[i].name@),
        map_of(ts)[ts[i].name@] == ts[i],
    decreases ts.len(),
{
    if i == ts.len() - 1 {
    } else {
        assert(names_unique(ts.drop_last()));
        assert(ts.drop_last()[i] == ts[i]);
        lemma_map_of_index(ts.drop_last(), i);
        assert(ts[i].name@ != ts.last().name@);
    }
}

/// Replacing the entry that bears a name denotes the same mapping as
/// inserting the replacement under that name.
pub proof fn lemma_map_of_update(ts: Seq<Template>, i: int, t: Template)
    requires
        names_unique(ts),
        0 <= i < ts.len(),
        ts[i].name@ == t.name@,
    ensures
        map_of(ts.update(i, t)) == map_of(ts).insert(t.name@, t),
    decreases ts.len(),
{
    let upd = ts.update(i, t);
    if i == ts.len() - 1 {
        assert(upd.drop_last() =~= ts.drop_last());
        assert(upd.last() == t);
        assert(map_of(ts.drop_last()).insert(ts.last().name@, ts.last()).insert(t.name@, t)
            =~= map_of(ts.drop_last()).insert(t.name@, t));
    } else {
        assert(names_unique(ts.drop_last()));
        assert(ts.drop_last()[i] == ts[i]);
        lemma_map_of_update(ts.drop_last(), i, t);
        assert(upd.drop_last() =~= ts.drop_last().update(i, t));
        assert(upd.last() == ts.last());
        assert(ts.last().name@ != t.name@);
        assert(map_of(ts.drop_last()).insert(t.name@, t).insert(ts.last().name@, ts.last())
            =~= map_of(ts.drop_last()).insert(ts.last().name@, ts.last()).insert(t.name@, t));
    }
}

/// The in-memory template catalog, keyed by display name.
pub struct Catalog {
    /// The templates, no two with the same display name.
    pub templates: Vec<Template>,
}

impl View for Catalog {
    type V = Map<Seq<u8>, Template>;

    open spec fn view(&self) -> Map<Seq<u8>, Template> {
        map_of(self.templates@)
    }
}

impl Catalog {
    /// No two entries share a name, and every entry is well formed.
    pub open spec fn wf(self) -> bool {
        &&& names_unique(self.templates@)
        &&& forall|i: int| 0 <= i < self.templates@.len() ==> self.templates@[i].wf()
    }

    /// An empty catalog.
    pub fn new() -> (c: Catalog)
        ensures
            c.wf(),
            c@ == Map::<Seq<u8>, Template>::empty(),
            c.templates@.len() == 0,
    {
        Catalog { templates: Vec::new() }
    }

    /// The index of the entry bearing this name, if any.
    fn find_index(&self, name: &Vec<u8>) -> (r: Option<usize>)
        ensures
            match r {
                Option::None => forall|i: int|
                    0 <= i < self.templates@.len() ==> self.templates@[i].name@ != name@,
                Option::Some(i) => 0 <= i < self.templates@.len() && self.templates@[
                    i as int
                ].name@ == name@,
            },
    {
        let mut i: usize = 0;
        while i < self.templates.len()
            invariant
                i <= self.templates@.len(),
                forall|k: int| 0 <= k < i ==> self.templates@[k].name@ != name@,
            decreases self.templates@.len() - i,
        {
            if bytes_eq(&self.templates[i].name, name) {
                return Some(i);
            }
            i = i + 1;
        }
        None
    }

    /// Insert a template under its display name; an entry already bearing
    /// that name is replaced (last wins).
    pub fn insert(&mut self, t: Template)
        requires
            old(self).wf(),
            t.wf(),
        ensures
            final(self).wf(),
            final(self)@ == old(self)@.insert(t.name@, t),
    {
        let ghost before = self.templates@;
        match self.find_index(&t.name) {
            Some(i) => {
                let ghost tn = t.name@;
                self.templates.set(i, t);
                proof {
                    lemma_map_of_update(before, i as int, self.templates@[i as int]);
                    assert(names_unique(self.templates@));
                }
            },
            None => {
                self.templates.push(t);
                proof {
                    assert(self.templates@.drop_last() =~= before);
                    assert(names_unique(self.templates@));
                }
            },
        }
    }

    /// Look a template up by display name.
    pub fn get(&self, name: &Vec<u8>) -> (r: Option<&Template>)
        requires
            self.wf(),
        ensures
            match r {
                Option::None => !self@.dom().contains(name@),
                Option::Some(t) => self@.dom().contains(name@) && *t == self@[name@],
            },
    {
        match self.find_index(name) {
            Some(i) => {
                proof {
                    lemma_map_of_index(self.templates@, i as int);
                }
                Some(&self.templates[i])
            },
            None => {
                proof {
                    lemma_map_of_dom(self.templates@, name@);
                }
                None
            },
        }
    }

    /// The number of templates in the catalog.
    pub fn len(&self) -> (n: usize)
        ensures
            n == self.templates@.len(),
    {
        self.templates.len()
    }

    /// Whether the catalog holds no template at all, the legitimate empty
    /// state in which the program reports "no templates" and exits.
    pub fn is_empty(&self) -> (b: bool)
        requires
            self.wf(),
        ensures
            b == (self.templates@.len() == 0),
            b == (self@ == Map::<Seq<u8>, Template>::empty()),
    {
        let n = self.templates.len();
        proof {
            if self.templates@.len() > 0 {
                lemma_map_of_index(self.templates@, 0);
                assert(self@.dom().contains(self.templates@[0].name@));
                assert(!Map::<Seq<u8>, Template>::empty().dom().contains(
                    self.templates@[0].name@,
                ));
            } else {
                assert(self@ == Map::<Seq<u8>, Template>::empty());
            }
        }
        n == 0
    }

    /// The display names, in storage order, for the selection prompt; each
    /// is a key of the catalog.
    pub fn names(&self) -> (ns: Vec<Vec<u8>>)
        requires
            self.wf(),
        ensures
            list_view(ns@) == names_of(self.templates@),
            forall|k: int| 0 <= k < ns@.len() ==> self@.dom().contains(ns@[k]@),
    {
        let mut ns: Vec<Vec<u8>> = Vec::new();
        let mut i: usize = 0;
        while i < self.templates.len()
            invariant
                self.wf(),
                i <= self.templates@.len(),
                list_view(ns@) == names_of(self.templates@).subrange(0, i as int),
            decreases self.templates@.len() - i,
        {
            let ghost prev = ns@;
            ns.push(crate::subst::bytes_copy(&self.templates[i].name));
            proof {
                let full = names_of(self.templates@);
                assert(list_view(prev).len() == prev.len());
                assert(prev.len() == i);
                assert(ns@.len() == i + 1);
                assert forall|k: int| 0 <= k < i + 1 implies list_view(ns@)[k] == full.subrange(
                    0,
                    i + 1 as int,
                )[k] by {
                    if k < i {
                        assert(ns@[k] == prev[k]);
                        assert(list_view(prev)[k] == full.subrange(0, i as int)[k]);
                    } else {
                        assert(ns@[k]@ == self.templates@[i as int].name@);
                    }
                }
                assert(list_view(ns@) =~= full.subrange(0, i + 1 as int));
            }
            i = i + 1;
        }
        proof {
            assert(names_of(self.templates@).subrange(0, self.templates@.len() as int)
                =~= names_of(self.templates@));
            assert forall|k: int| 0 <= k < ns@.len() implies self@.dom().contains(ns@[k]@) by {
                assert(ns@[k]@ == names_of(self.templates@)[k]);
                lemma_map_of_index(self.templates@, k);
            }
        }
        ns
    }
}

} // verus!
