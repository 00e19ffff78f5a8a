use vstd::prelude::*;

use crate::bytes::push_all;

verus! {

/// The models of a vector of path components.
pub open spec fn comps_view(v: Seq<Vec<u8>>) -> Seq<Seq<u8>> {
    Seq::new(v.len(), |i: int| v[i]@)
}

/// Splits the byte string `s` from index `i` on at every path separator,
/// dropping empty components, with `cur` the component gathered so far.
pub open spec fn spec_split_from(s: Seq<u8>, i: nat, cur: Seq<u8>, acc: Seq<Seq<u8>>) -> Seq<
    Seq<u8>,
>
    decreases s.len() - i,
{
    if i >= s.len() {
        if cur.len() > 0 {
            acc.push(cur)
        } else {
            acc
        }
    } else if s[i as int] == 47 {
        if cur.len() > 0 {
            spec_split_from(s, i + 1, Seq::empty(), acc.push(cur))
        } else {
            spec_split_from(s, i + 1, Seq::empty(), acc)
        }
    } else {
        spec_split_from(s, i + 1, cur.push(s[i as int]), acc)
    }
}

/// The slash-separated components of a path, empty components dropped.
pub open spec fn spec_split(s: Seq<u8>) -> Seq<Seq<u8>> {
    spec_split_from(s, 0, Seq::empty(), Seq::empty())
}

/// Joins components with the path separator.
pub open spec fn spec_join(cs: Seq<Seq<u8>>) -> Seq<u8>
    decreases cs.len(),
{
    if cs.len() == 0 {
        Seq::empty()
    } else if cs.len() == 1 {
        cs[0]
    } else {
        cs[0] + seq![47u8] + spec_join(cs.skip(1))
    }
}

/// Appending a component appends a separator and the component, except to
/// the empty sequence of components.
pub proof fn lemma_join_push(cs: Seq<Seq<u8>>, x: Seq<u8>)
    ensures
        cs.len() == 0 ==> spec_join(cs.push(x)) == x,
        cs.len() > 0 ==> spec_join(cs.push(x)) == spec_join(cs) + seq![47u8] + x,
    decreases cs.len(),
{
    if cs.len() == 0 {
        assert(cs.push(x)[0] == x);
        assert(spec_join(cs.push(x)) == x);
    } else if cs.len() == 1 {
        let p = cs.push(x);
        assert(p.len() == 2);
        assert(p.skip(1) =~= seq![x]);
        assert(spec_join(p.skip(1)) == x);
        assert(spec_join(p) == p[0] + seq![47u8] + x);
        assert(p[0] == cs[0]);
        assert(spec_join(cs) == cs[0]);
    } else {
        lemma_join_push(cs.skip(1), x);
        let p = cs.push(x);
        assert(p.skip(1) =~= cs.skip(1).push(x));
        assert(spec_join(p) == p[0] + seq![47u8] + spec_join(p.skip(1)));
        assert(spec_join(p.skip(1)) == spec_join(cs.skip(1)) + seq![47u8] + x);
        assert(p[0] == cs[0]);
        assert(cs[0] + seq![47u8] + (spec_join(cs.skip(1)) + seq![47u8] + x) =~= (cs[0] + seq![47u8]
            + spec_join(cs.skip(1))) + seq![47u8] + x);
    }
}

/// Splits a slash-delimited path into its non-empty components.
pub fn split_path(s: &Vec<u8>) -> (r: Vec<Vec<u8>>)
    ensures
        comps_view(r@) == spec_split(s@),
{
    let len = s.len();
    let mut acc: Vec<Vec<u8>> = Vec::new();
    let mut cur: Vec<u8> = Vec::new();
    let mut i: usize = 0;
    proof {
        assert(comps_view(acc@) =~= Seq::<Seq<u8>>::empty());
        assert(cur@ =~= Seq::<u8>::empty());
    }
    while i < len
        invariant
            len == s@.len(),
            i <= len,
            spec_split(s@) == spec_split_from(s@, i as nat, cur@, comps_view(acc@)),
        decreases len - i,
    {
        if s[i] == 47 {
            if cur.len() > 0 {
                let ghost prev = comps_view(acc@);
                let done = cur;
                acc.push(done);
                cur = Vec::new();
                proof {
                    assert(comps_view(acc@) =~= prev.push(done@));
                    assert(cur@ =~= Seq::<u8>::empty());
                }
            } else {
                proof {
                    assert(cur@ =~= Seq::<u8>::empty());
                }
            }
        } else {
            cur.push(s[i]);
        }
        i = i + 1;
    }
    if cur.len() > 0 {
        let ghost prev = comps_view(acc@);
        let done = cur;
        acc.push(done);
        proof {
            assert(comps_view(acc@) =~= prev.push(done@));
        }
    }
    acc
}

/// Joins path components with the separator byte.
pub fn join_components(v: &Vec<Vec<u8>>) -> (r: Vec<u8>)
    ensures
        r@ == spec_join(comps_view(v@)),
{
    let mut out: Vec<u8> = Vec::new();
    let mut i: usize = 0;
    proof {
        assert(out@ =~= spec_join(comps_view(v@).take(0)));
    }
    while i < v.len()
        invariant
            i <= v@.len(),
            out@ == spec_join(comps_view(v@).take(i as int)),
        decreases v@.len() - i,
    {
        if i > 0 {
            out.push(47);
        }
        push_all(&mut out, &v[i]);
        i = i + 1;
        proof {
            lemma_join_push(comps_view(v@).take(i - 1), v@[i - 1]@);
            assert(comps_view(v@).take(i as int) =~= comps_view(v@).take(i - 1).push(v@[i - 1]@));
        }
    }
    proof {
        assert(comps_view(v@).take(v@.len() as int) =~= comps_view(v@));
    }
    out
}

/// Extends a joined path with one more component.
pub fn push_component(prefix: &Vec<u8>, name: &Vec<u8>, Ghost(comps): Ghost<Seq<Seq<u8>>>) -> (r:
    Vec<u8>)
    requires
        prefix@ == spec_join(comps),
        comps.len() > 0 ==> prefix@.len() > 0,
    ensures
        r@ == spec_join(comps.push(name@)),
{
    let mut out: Vec<u8> = Vec::new();
    push_all(&mut out, prefix);
    if prefix.len() > 0 {
        out.push(47);
    }
    push_all(&mut out, name);
    proof {
        lemma_join_push(comps, name@);
        if comps.len() == 0 {
            assert(out@ =~= name@);
        } else {
            assert(spec_join(comps).len() > 0 ==> true);
            assert(out@ =~= spec_join(comps) + seq![47u8] + name@);
        }
    }
    out
}

} // verus!
