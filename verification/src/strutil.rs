use vstd::prelude::*;

verus! {

/// The scope separator `::` as a sequence of characters.
pub open spec fn scope_sep() -> Seq<char> {
    seq![':', ':']
}

/// `parent::name` at the specification level.
pub open spec fn spec_scoped(parent: Seq<char>, name: Seq<char>) -> Seq<char> {
    parent + scope_sep() + name
}

/// The parts joined with `::`: `spec_join(["A", "B", "C"]) == "A::B::C"`.
pub open spec fn spec_join(parts: Seq<Seq<char>>) -> Seq<char>
    decreases parts.len(),
{
    if parts.len() == 0 {
        Seq::empty()
    } else if parts.len() == 1 {
        parts[0]
    } else {
        spec_scoped(spec_join(parts.drop_last()), parts.last())
    }
}

pub proof fn lemma_join_step(parts: Seq<Seq<char>>, i: int)
    requires
        0 <= i < parts.len(),
    ensures
        spec_join(parts.take(i + 1)) == if i == 0 {
            parts[0]
        } else {
            spec_scoped(spec_join(parts.take(i)), parts[i])
        },
{
    let t = parts.take(i + 1);
    if i == 0 {
        assert(t.len() == 1);
        assert(t[0] == parts[0]);
    } else {
        assert(t.drop_last() =~= parts.take(i));
        assert(t.last() == parts[i]);
    }
}

/// Builds `parent::name`.
pub fn scoped(parent: &str, name: &str) -> (r: String)
    ensures
        r@ == spec_scoped(parent@, name@),
{
    let mut s = parent.to_owned();
    s.append("::");
    s.append(name);
    proof {
        reveal_strlit("::");
        assert(("::")@ =~= scope_sep());
        assert(s@ =~= spec_scoped(parent@, name@));
    }
    s
}

/// Joins the parts with `::`.
pub fn join_names(parts: &Vec<String>) -> (r: String)
    ensures
        r@ == spec_join(parts.deep_view()),
{
    let ghost pv: Seq<Seq<char>> = parts.deep_view();
    let mut r = String::new();
    let mut i: usize = 0;
    while i < parts.len()
        invariant
            i <= parts@.len(),
            pv == parts.deep_view(),
            pv.len() == parts@.len(),
            forall|j: int| 0 <= j < pv.len() ==> pv[j] == parts@[j]@,
            r@ == spec_join(pv.take(i as int)),
        decreases parts@.len() - i,
    {
        if i == 0 {
            r = parts[0].clone();
        } else {
            let joined = scoped(r.as_str(), parts[i].as_str());
            r = joined;
        }
        proof {
            lemma_join_step(pv, i as int);
        }
        i = i + 1;
    }
    proof {
        assert(pv.take(parts@.len() as int) =~= pv);
    }
    r
}

/// Lexicographic order on character sequences, by code point; the empty
/// sequence comes first.
pub open spec fn lex_le(a: Seq<char>, b: Seq<char>) -> bool
    decreases a.len(),
{
    if a.len() == 0 {
        true
    } else if b.len() == 0 {
        false
    } else if a[0] as u32 == b[0] as u32 {
        lex_le(a.drop_first(), b.drop_first())
    } else {
        (a[0] as u32) < (b[0] as u32)
    }
}

pub proof fn lemma_lex_le_total(a: Seq<char>, b: Seq<char>)
    ensures
        lex_le(a, b) || lex_le(b, a),
    decreases a.len(),
{
    if a.len() == 0 {
    } else if b.len() == 0 {
    } else if a[0] as u32 == b[0] as u32 {
        lemma_lex_le_total(a.drop_first(), b.drop_first());
    }
}

pub proof fn lemma_lex_le_trans(a: Seq<char>, b: Seq<char>, c: Seq<char>)
    requires
        lex_le(a, b),
        lex_le(b, c),
    ensures
        lex_le(a, c),
    decreases a.len(),
{
    if a.len() == 0 || b.len() == 0 || c.len() == 0 {
    } else if a[0] as u32 == b[0] as u32 && b[0] as u32 == c[0] as u32 {
        lemma_lex_le_trans(a.drop_first(), b.drop_first(), c.drop_first());
    }
}

proof fn lemma_lex_le_skip(a: Seq<char>, b: Seq<char>, i: int)
    requires
        0 <= i < a.len(),
        i < b.len(),
        a[i] as u32 == b[i] as u32,
    ensures
        lex_le(a.skip(i), b.skip(i)) == lex_le(a.skip(i + 1), b.skip(i + 1)),
{
    assert(a.skip(i).drop_first() =~= a.skip(i + 1));
    assert(b.skip(i).drop_first() =~= b.skip(i + 1));
    assert(a.skip(i)[0] == a[i]);
    assert(b.skip(i)[0] == b[i]);
}

/// Decides `lex_le` on string slices.
pub fn lex_le_exec(a: &str, b: &str) -> (r: bool)
    ensures
        r == lex_le(a@, b@),
{
    let alen = a.unicode_len();
    let blen = b.unicode_len();
    let mut i: usize = 0;
    proof {
        assert(a@.skip(0) =~= a@);
        assert(b@.skip(0) =~= b@);
    }
    while i < alen && i < blen
        invariant
            i <= alen,
            i <= blen,
            alen == a@.len(),
            blen == b@.len(),
            lex_le(a@, b@) == lex_le(a@.skip(i as int), b@.skip(i as int)),
        decreases alen - i,
    {
        let ca = a.get_char(i) as u32;
        let cb = b.get_char(i) as u32;
        if ca != cb {
            return ca < cb;
        }
        proof {
            lemma_lex_le_skip(a@, b@, i as int);
        }
        i = i + 1;
    }
    if i >= alen {
        proof {
            assert(a@.skip(i as int).len() == 0);
        }
        true
    } else {
        proof {
            assert(b@.skip(i as int).len() == 0);
            assert(a@.skip(i as int).len() > 0);
        }
        false
    }
}

/// The order packs are listed in: longer names first, names of equal length
/// in ascending lexicographic order.
pub open spec fn pack_order_le(a: Seq<char>, b: Seq<char>) -> bool {
    a.len() > b.len() || (a.len() == b.len() && lex_le(a, b))
}

pub proof fn lemma_pack_order_total(a: Seq<char>, b: Seq<char>)
    ensures
        pack_order_le(a, b) || pack_order_le(b, a),
{
    lemma_lex_le_total(a, b);
}

pub proof fn lemma_pack_order_trans(a: Seq<char>, b: Seq<char>, c: Seq<char>)
    requires
        pack_order_le(a, b),
        pack_order_le(b, c),
    ensures
        pack_order_le(a, c),
{
    if a.len() == b.len() && b.len() == c.len() {
        lemma_lex_le_trans(a, b, c);
    }
}

/// Decides `pack_order_le` on string slices.
pub fn pack_order_le_exec(a: &str, b: &str) -> (r: bool)
    ensures
        r == pack_order_le(a@, b@),
{
    let alen = a.unicode_len();
    let blen = b.unicode_len();
    if alen != blen {
        alen > blen
    } else {
        lex_le_exec(a, b)
    }
}

/// A name with exactly one trailing `/` removed, if one is present.
pub open spec fn spec_trim_one_trailing_slash(s: Seq<char>) -> Seq<char> {
    if s.len() > 0 && s.last() == '/' {
        s.drop_last()
    } else {
        s
    }
}

/// Removes exactly one trailing `/`, if present.
pub fn trim_one_trailing_slash(s: &str) -> (r: String)
    ensures
        r@ == spec_trim_one_trailing_slash(s@),
{
    let n = s.unicode_len();
    if n > 0 && s.get_char(n - 1) == '/' {
        let t = s.substring_char(0, n - 1);
        proof {
            assert(t@ =~= s@.drop_last());
        }
        t.to_owned()
    } else {
        s.to_owned()
    }
}

} // verus!
