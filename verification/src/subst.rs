//! Token substitution engine.
//!
//! A placeholder token is the literal byte text `<` + lowercase(variable
//! name) + `>`. Matching against file content is case-insensitive on ASCII
//! letters; the replacement value is inserted verbatim. Occurrences are
//! replaced left to right, non-overlapping, one full pass per variable, each
//! pass running over the output of the previous one.

use vstd::prelude::*;

verus! {

/// ASCII code of `A`.
pub const UPPER_A: u8 = 65;

/// ASCII code of `Z`.
pub const UPPER_Z: u8 = 90;

/// Distance from an ASCII uppercase letter to its lowercase form.
pub const CASE_GAP: u8 = 32;

/// ASCII code of `<`, the byte that opens a placeholder token.
pub const TOKEN_OPEN: u8 = 60;

/// ASCII code of `>`, the byte that closes a placeholder token.
pub const TOKEN_CLOSE: u8 = 62;

/// ASCII lowercase of one byte: `A`..`Z` map to `a`..`z`, all else unchanged.
pub open spec fn lower_byte(b: u8) -> u8 {
    if UPPER_A <= b && b <= UPPER_Z {
        (b + CASE_GAP) as u8
    } else {
        b
    }
}

/// ASCII lowercase of a byte sequence.
pub open spec fn lower_seq(s: Seq<u8>) -> Seq<u8> {
    s.map_values(|b: u8| lower_byte(b))
}

/// The placeholder token for a variable name: `<` + lowercase(name) + `>`.
pub open spec fn token_of(name: Seq<u8>) -> Seq<u8> {
    seq![TOKEN_OPEN] + lower_seq(name) + seq![TOKEN_CLOSE]
}

/// The token `t` occurs at position `i` of `c`, comparing ASCII
/// case-insensitively.
pub open spec fn matches_at(c: Seq<u8>, i: int, t: Seq<u8>) -> bool {
    &&& 0 <= i
    &&& i + t.len() <= c.len()
    &&& lower_seq(c.subrange(i, i + t.len() as int)) == lower_seq(t)
}

/// ASCII lowercase of one byte, executable form.
pub fn lower_byte_exec(b: u8) -> (r: u8)
    ensures
        r == lower_byte(b),
{
    if UPPER_A <= b && b <= UPPER_Z {
        b + CASE_GAP
    } else {
        b
    }
}

/// Build the placeholder token for a variable name.
pub fn make_token(name: &Vec<u8>) -> (t: Vec<u8>)
    ensures
        t@ == token_of(name@),
{
    let mut t: Vec<u8> = Vec::new();
    t.push(TOKEN_OPEN);
    let mut i: usize = 0;
    while i < name.len()
        invariant
            i <= name.len(),
            t@ == seq![TOKEN_OPEN] + lower_seq(name@.subrange(0, i as int)),
        decreases name.len() - i,
    {
        t.push(lower_byte_exec(name[i]));
        proof {
            assert(lower_seq(name@.subrange(0, i + 1 as int)) =~= lower_seq(
                name@.subrange(0, i as int),
            ).push(lower_byte(name@[i as int])));
            assert(t@ =~= seq![TOKEN_OPEN] + lower_seq(name@.subrange(0, i + 1 as int)));
        }
        i = i + 1;
    }
    t.push(TOKEN_CLOSE);
    proof {
        assert(name@.subrange(0, name@.len() as int) =~= name@);
        assert(t@ =~= token_of(name@));
    }
    t
}

/// One full substitution pass: every case-insensitive occurrence of `t` in
/// `c`, taken left to right and non-overlapping, is replaced by `v`
/// verbatim. An empty token matches nothing.
pub open spec fn subst_once(c: Seq<u8>, t: Seq<u8>, v: Seq<u8>) -> Seq<u8>
    decreases c.len(),
{
    if t.len() == 0 || c.len() < t.len() {
        c
    } else if matches_at(c, 0, t) {
        v + subst_once(c.skip(t.len() as int), t, v)
    } else {
        seq![c[0]] + subst_once(c.skip(1), t, v)
    }
}

/// Test whether the token occurs at position `i` of the content.
pub fn matches_at_exec(c: &Vec<u8>, i: usize, t: &Vec<u8>) -> (r: bool)
    requires
        i + t@.len() <= c@.len(),
    ensures
        r == matches_at(c@, i as int, t@),
{
    let ghost sub = c@.subrange(i as int, i + t@.len());
    let mut j: usize = 0;
    while j < t.len()
        invariant
            i + t@.len() <= c@.len(),
            j <= t@.len(),
            sub == c@.subrange(i as int, i + t@.len()),
            forall|k: int| 0 <= k < j ==> lower_byte(c@[i + k]) == lower_byte(t@[k]),
        decreases t@.len() - j,
    {
        let n: usize = c.len();
        proof {
            assert(i + j < n);
        }
        if lower_byte_exec(c[i + j]) != lower_byte_exec(t[j]) {
            proof {
                assert(sub[j as int] == c@[i + j]);
                assert(lower_seq(sub)[j as int] != lower_seq(t@)[j as int]);
            }
            return false;
        }
        j = j + 1;
    }
    proof {
        assert forall|k: int| 0 <= k < t@.len() implies lower_seq(sub)[k] == lower_seq(
            t@,
        )[k] by {
            assert(sub[k] == c@[i + k]);
        }
        assert(lower_seq(sub) =~= lower_seq(t@));
    }
    true
}

/// Copy a byte vector.
pub fn bytes_copy(c: &Vec<u8>) -> (out: Vec<u8>)
    ensures
        out@ == c@,
{
    let mut out: Vec<u8> = Vec::new();
    let mut i: usize = 0;
    while i < c.len()
        invariant
            i <= c@.len(),
            out@ == c@.subrange(0, i as int),
        decreases c@.len() - i,
    {
        out.push(c[i]);
        proof {
            assert(out@ =~= c@.subrange(0, i + 1 as int));
        }
        i = i + 1;
    }
    proof {
        assert(c@.subrange(0, c@.len() as int) =~= c@);
    }
    out
}

/// Append the bytes of `v` to `out`.
pub fn append_bytes(out: &mut Vec<u8>, v: &Vec<u8>)
    ensures
        final(out)@ == old(out)@ + v@,
{
    let mut i: usize = 0;
    while i < v.len()
        invariant
            i <= v@.len(),
            out@ == old(out)@ + v@.subrange(0, i as int),
        decreases v@.len() - i,
    {
        out.push(v[i]);
        proof {
            assert(old(out)@ + v@.subrange(0, i + 1 as int) =~= (old(out)@ + v@.subrange(
                0,
                i as int,
            )).push(v@[i as int]));
        }
        i = i + 1;
    }
    proof {
        assert(old(out)@ + v@.subrange(0, v@.len() as int) =~= old(out)@ + v@);
    }
}

/// One substitution pass over `c`: replace every case-insensitive,
/// non-overlapping occurrence of `t` (left to right) with `v`.
pub fn replace_all(c: &Vec<u8>, t: &Vec<u8>, v: &Vec<u8>) -> (out: Vec<u8>)
    ensures
        out@ == subst_once(c@, t@, v@),
{
    if t.len() == 0 {
        return bytes_copy(c);
    }
    let mut out: Vec<u8> = Vec::new();
    let mut i: usize = 0;
    proof {
        assert(c@.skip(0) =~= c@);
        assert(Seq::<u8>::empty() + subst_once(c@, t@, v@) =~= subst_once(c@, t@, v@));
    }
    while i < c.len()
        invariant
            t@.len() > 0,
            i <= c@.len(),
            subst_once(c@, t@, v@) == out@ + subst_once(c@.skip(i as int), t@, v@),
        decreases c@.len() - i,
    {
        let rest: usize = c.len() - i;
        if t.len() <= rest && matches_at_exec(c, i, t) {
            proof {
                let tail = c@.skip(i as int);
                assert(tail.subrange(0, t@.len() as int) =~= c@.subrange(
                    i as int,
                    i + t@.len(),
                ));
                assert(matches_at(tail, 0, t@));
                assert(subst_once(tail, t@, v@) == v@ + subst_once(
                    tail.skip(t@.len() as int),
                    t@,
                    v@,
                ));
                assert(tail.skip(t@.len() as int) =~= c@.skip(i + t@.len()));
            }
            append_bytes(&mut out, v);
            proof {
                assert(subst_once(c@, t@, v@) =~= out@ + subst_once(
                    c@.skip(i + t@.len()),
                    t@,
                    v@,
                ));
            }
            i = i + t.len();
        } else {
            proof {
                let tail = c@.skip(i as int);
                if t@.len() <= rest {
                    assert(tail.subrange(0, t@.len() as int) =~= c@.subrange(
                        i as int,
                        i + t@.len(),
                    ));
                    assert(!matches_at(tail, 0, t@));
                    assert(subst_once(tail, t@, v@) == seq![tail[0]] + subst_once(
                        tail.skip(1),
                        t@,
                        v@,
                    ));
                } else {
                    assert(tail.len() < t@.len());
                    assert(subst_once(tail, t@, v@) == tail);
                    assert(subst_once(tail.skip(1), t@, v@) == tail.skip(1));
                    assert(tail =~= seq![tail[0]] + tail.skip(1));
                }
                assert(tail[0] == c@[i as int]);
                assert(tail.skip(1) =~= c@.skip(i + 1));
            }
            out.push(c[i]);
            proof {
                assert(subst_once(c@, t@, v@) =~= out@ + subst_once(c@.skip(i + 1), t@, v@));
            }
            i = i + 1;
        }
    }
    proof {
        assert(c@.skip(c@.len() as int).len() == 0);
        assert(subst_once(c@.skip(c@.len() as int), t@, v@) =~= Seq::<u8>::empty());
        assert(out@ =~= subst_once(c@, t@, v@));
    }
    out
}

/// The value a user supplied for one variable of the selected template.
pub struct Binding {
    /// The variable's name as declared by the template.
    pub name: Vec<u8>,
    /// The literal replacement text, inserted with its case preserved.
    pub value: Vec<u8>,
}

/// The (token, value) pairs of a run, in declaration order.
pub open spec fn bindings_view(bs: Seq<Binding>) -> Seq<(Seq<u8>, Seq<u8>)> {
    bs.map_values(|b: Binding| (token_of(b.name@), b.value@))
}

/// Sequential substitution: one full pass per (token, value) pair, in order,
/// each pass running over the output of the previous one. A value inserted
/// by an earlier pair is itself subject to the later pairs' passes.
pub open spec fn subst_all(c: Seq<u8>, ps: Seq<(Seq<u8>, Seq<u8>)>) -> Seq<u8>
    decreases ps.len(),
{
    if ps.len() == 0 {
        c
    } else {
        subst_all(subst_once(c, ps[0].0, ps[0].1), ps.drop_first())
    }
}

/// Substitute every binding into `content`, one full pass per binding in
/// declaration order.
pub fn substitute(content: Vec<u8>, bindings: &Vec<Binding>) -> (out: Vec<u8>)
    ensures
        out@ == subst_all(content@, bindings_view(bindings@)),
        bindings@.len() == 0 ==> out@ == content@,
{
    let ghost orig = content@;
    let mut cur = content;
    let mut k: usize = 0;
    proof {
        assert(bindings_view(bindings@.skip(0)) =~= bindings_view(bindings@));
    }
    while k < bindings.len()
        invariant
            k <= bindings@.len(),
            subst_all(orig, bindings_view(bindings@)) == subst_all(
                cur@,
                bindings_view(bindings@.skip(k as int)),
            ),
        decreases bindings@.len() - k,
    {
        let t = make_token(&bindings[k].name);
        let next = replace_all(&cur, &t, &bindings[k].value);
        proof {
            let ps = bindings_view(bindings@.skip(k as int));
            assert(ps[0] == (token_of(bindings@[k as int].name@), bindings@[k as int].value@));
            assert(subst_all(cur@, ps) == subst_all(subst_once(cur@, ps[0].0, ps[0].1), ps.drop_first()));
            assert(ps.drop_first() =~= bindings_view(bindings@.skip(k + 1)));
        }
        cur = next;
        k = k + 1;
    }
    proof {
        assert(bindings_view(bindings@.skip(bindings@.len() as int)).len() == 0);
    }
    cur
}

/// With no declared variables there are no bindings, and substitution
/// leaves content byte-identical.
pub proof fn lemma_subst_all_empty(c: Seq<u8>, ps: Seq<(Seq<u8>, Seq<u8>)>)
    requires
        ps.len() == 0,
    ensures
        subst_all(c, ps) == c,
{
}

/// Lowercasing a subrange is the subrange of the lowercased sequence.
pub proof fn lemma_lower_subrange(s: Seq<u8>, a: int, b: int)
    requires
        0 <= a <= b <= s.len(),
    ensures
        lower_seq(s.subrange(a, b)) =~= lower_seq(s).subrange(a, b),
{
}

/// Matching is ASCII case-insensitive: whether a token occurs at a position
/// depends only on the lowercase images of the content and of the token.
pub proof fn lemma_matches_at_case_insensitive(
    c1: Seq<u8>,
    c2: Seq<u8>,
    t1: Seq<u8>,
    t2: Seq<u8>,
    i: int,
)
    requires
        lower_seq(c1) == lower_seq(c2),
        lower_seq(t1) == lower_seq(t2),
    ensures
        matches_at(c1, i, t1) == matches_at(c2, i, t2),
{
    assert(c1.len() == lower_seq(c1).len());
    assert(c2.len() == lower_seq(c2).len());
    assert(t1.len() == lower_seq(t1).len());
    assert(t2.len() == lower_seq(t2).len());
    if 0 <= i && i + t1.len() <= c1.len() {
        lemma_lower_subrange(c1, i, i + t1.len() as int);
        lemma_lower_subrange(c2, i, i + t2.len() as int);
    }
}

/// A pass replaces occurrences and nothing else: where the token has no
/// case-insensitive occurrence at all, the content comes back byte-identical.
pub proof fn lemma_subst_once_no_match(c: Seq<u8>, t: Seq<u8>, v: Seq<u8>)
    requires
        forall|i: int| !matches_at(c, i, t),
    ensures
        subst_once(c, t, v) == c,
    decreases c.len(),
{
    if t.len() == 0 || c.len() < t.len() {
    } else {
        assert(!matches_at(c, 0, t));
        assert forall|i: int| !matches_at(c.skip(1), i, t) by {
            if matches_at(c.skip(1), i, t) {
                assert(c.skip(1).subrange(i, i + t.len() as int) =~= c.subrange(
                    i + 1,
                    i + 1 + t.len() as int,
                ));
                assert(matches_at(c, i + 1, t));
            }
        }
        lemma_subst_once_no_match(c.skip(1), t, v);
        assert(seq![c[0]] + c.skip(1) =~= c);
    }
}

/// A pass really replaces each occurrence: at the first occurrence position
/// `p`, the output is the content up to `p`, then the value verbatim, then
/// the pass over what follows the occurrence. Applied repeatedly, this
/// accounts for every case-insensitive occurrence, left to right.
pub proof fn lemma_subst_once_at_first_match(c: Seq<u8>, t: Seq<u8>, v: Seq<u8>, p: int)
    requires
        0 < t.len(),
        matches_at(c, p, t),
        forall|i: int| 0 <= i < p ==> !matches_at(c, i, t),
    ensures
        subst_once(c, t, v) == c.subrange(0, p) + v + subst_once(c.skip(p + t.len()), t, v),
    decreases p,
{
    if p == 0 {
        assert(subst_once(c, t, v) == v + subst_once(c.skip(t.len() as int), t, v));
        assert(c.subrange(0, 0) + v + subst_once(c.skip(t.len() as int), t, v) =~= v
            + subst_once(c.skip(t.len() as int), t, v));
    } else {
        assert(!matches_at(c, 0, t));
        assert(subst_once(c, t, v) == seq![c[0]] + subst_once(c.skip(1), t, v));
        let d = c.skip(1);
        assert(d.subrange(p - 1, p - 1 + t.len() as int) =~= c.subrange(p, p + t.len() as int));
        assert(matches_at(d, p - 1, t));
        assert forall|i: int| 0 <= i < p - 1 implies !matches_at(d, i, t) by {
            if matches_at(d, i, t) {
                assert(d.subrange(i, i + t.len() as int) =~= c.subrange(i + 1, i + 1 + t.len() as int));
                assert(matches_at(c, i + 1, t));
            }
        }
        lemma_subst_once_at_first_match(d, t, v, p - 1);
        assert(d.skip(p - 1 + t.len() as int) =~= c.skip(p + t.len()));
        assert(seq![c[0]] + (d.subrange(0, p - 1) + v + subst_once(c.skip(p + t.len()), t, v))
            =~= c.subrange(0, p) + v + subst_once(c.skip(p + t.len()), t, v));
    }
}

/// Case of the content does not affect a substitution pass: contents equal
/// up to ASCII case give results equal up to ASCII case, every occurrence of
/// the token being replaced in both.
pub proof fn lemma_subst_once_case_insensitive(c1: Seq<u8>, c2: Seq<u8>, t: Seq<u8>, v: Seq<u8>)
    requires
        lower_seq(c1) == lower_seq(c2),
    ensures
        lower_seq(subst_once(c1, t, v)) == lower_seq(subst_once(c2, t, v)),
    decreases c1.len(),
{
    assert(c1.len() == lower_seq(c1).len());
    assert(c2.len() == lower_seq(c2).len());
    if t.len() == 0 || c1.len() < t.len() {
    } else if matches_at(c1, 0, t) {
        lemma_matches_at_case_insensitive(c1, c2, t, t, 0);
        lemma_lower_subrange(c1, t.len() as int, c1.len() as int);
        lemma_lower_subrange(c2, t.len() as int, c2.len() as int);
        assert(c1.skip(t.len() as int) =~= c1.subrange(t.len() as int, c1.len() as int));
        assert(c2.skip(t.len() as int) =~= c2.subrange(t.len() as int, c2.len() as int));
        lemma_subst_once_case_insensitive(c1.skip(t.len() as int), c2.skip(t.len() as int), t, v);
        assert(lower_seq(v + subst_once(c1.skip(t.len() as int), t, v)) =~= lower_seq(v)
            + lower_seq(subst_once(c1.skip(t.len() as int), t, v)));
        assert(lower_seq(v + subst_once(c2.skip(t.len() as int), t, v)) =~= lower_seq(v)
            + lower_seq(subst_once(c2.skip(t.len() as int), t, v)));
    } else {
        lemma_matches_at_case_insensitive(c1, c2, t, t, 0);
        lemma_lower_subrange(c1, 1, c1.len() as int);
        lemma_lower_subrange(c2, 1, c2.len() as int);
        assert(c1.skip(1) =~= c1.subrange(1, c1.len() as int));
        assert(c2.skip(1) =~= c2.subrange(1, c2.len() as int));
        lemma_subst_once_case_insensitive(c1.skip(1), c2.skip(1), t, v);
        assert(lower_byte(c1[0]) == lower_seq(c1)[0]);
        assert(lower_byte(c2[0]) == lower_seq(c2)[0]);
        assert(lower_seq(seq![c1[0]] + subst_once(c1.skip(1), t, v)) =~= seq![lower_byte(c1[0])]
            + lower_seq(subst_once(c1.skip(1), t, v)));
        assert(lower_seq(seq![c2[0]] + subst_once(c2.skip(1), t, v)) =~= seq![lower_byte(c2[0])]
            + lower_seq(subst_once(c2.skip(1), t, v)));
    }
}

} // verus!
