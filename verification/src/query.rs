//! Query strings and upstream header reconstitution.
//!
//! A proxy request carries the upstream URL in the reserved `url` query
//! parameter; every other parameter is forwarded to the upstream server
//! as a header. Rewritten playlist lines carry the same parameters
//! forward, with `url` replaced by the new target.

use crate::encode::{pe, push_encoded};
use crate::text::push_str_bytes;
use vstd::prelude::*;

verus! {

/// The key/value byte strings of a parameter list.
pub open spec fn views(params: Seq<(Vec<u8>, Vec<u8>)>) -> Seq<(Seq<u8>, Seq<u8>)> {
    params.map_values(|p: (Vec<u8>, Vec<u8>)| (p.0@, p.1@))
}

/// `&k=v` for every pair, percent-encoded, in order.
pub open spec fn query_pairs(params: Seq<(Seq<u8>, Seq<u8>)>) -> Seq<u8>
    decreases params.len(),
{
    if params.len() == 0 {
        seq![]
    } else {
        crate::lit("&") + pe(params[0].0) + crate::lit("=") + pe(params[0].1) + query_pairs(
            params.drop_first(),
        )
    }
}

/// A full query: the target under `url` first, then every pair.
pub open spec fn query_with_url(target: Seq<u8>, params: Seq<(Seq<u8>, Seq<u8>)>) -> Seq<u8> {
    crate::lit("url=") + pe(target) + query_pairs(params)
}

/// The parameters with every `url` pair removed.
pub open spec fn without_url(params: Seq<(Seq<u8>, Seq<u8>)>) -> Seq<(Seq<u8>, Seq<u8>)>
    decreases params.len(),
{
    if params.len() == 0 {
        seq![]
    } else if params[0].0 == crate::lit("url") {
        without_url(params.drop_first())
    } else {
        seq![params[0]] + without_url(params.drop_first())
    }
}

/// The value of the first `url` parameter, if any.
pub open spec fn url_value(params: Seq<(Seq<u8>, Seq<u8>)>) -> Option<Seq<u8>>
    decreases params.len(),
{
    if params.len() == 0 {
        None
    } else if params[0].0 == crate::lit("url") {
        Some(params[0].1)
    } else {
        url_value(params.drop_first())
    }
}

pub proof fn lemma_query_pairs_concat(a: Seq<(Seq<u8>, Seq<u8>)>, b: Seq<(Seq<u8>, Seq<u8>)>)
    ensures
        query_pairs(a + b) == query_pairs(a) + query_pairs(b),
    decreases a.len(),
{
    if a.len() == 0 {
        assert(a + b =~= b);
        assert(query_pairs(a) + query_pairs(b) =~= query_pairs(b));
    } else {
        lemma_query_pairs_concat(a.drop_first(), b);
        assert((a + b).drop_first() =~= a.drop_first() + b);
        assert(query_pairs(a + b) =~= query_pairs(a) + query_pairs(b));
    }
}

pub proof fn lemma_without_url_concat(a: Seq<(Seq<u8>, Seq<u8>)>, b: Seq<(Seq<u8>, Seq<u8>)>)
    ensures
        without_url(a + b) == without_url(a) + without_url(b),
    decreases a.len(),
{
    if a.len() == 0 {
        assert(a + b =~= b);
        assert(without_url(a) + without_url(b) =~= without_url(b));
    } else {
        lemma_without_url_concat(a.drop_first(), b);
        assert((a + b).drop_first() =~= a.drop_first() + b);
        assert(without_url(a + b) =~= without_url(a) + without_url(b));
    }
}

/// Whether two byte strings are equal.
pub fn eq_bytes(a: &Vec<u8>, b: &Vec<u8>) -> (r: bool)
    ensures
        r == (a@ == b@),
{
    if a.len() != b.len() {
        assert(a@ != b@);
        return false;
    }
    let mut i: usize = 0;
    while i < a.len()
        invariant
            a@.len() == b@.len(),
            0 <= i <= a@.len(),
            forall|k: int| 0 <= k < i ==> a@[k] == b@[k],
        decreases a.len() - i,
    {
        if a[i] != b[i] {
            return false;
        }
        i = i + 1;
    }
    assert(a@ =~= b@);
    true
}

/// Appends `&k=v`, percent-encoded, for every parameter.
pub fn push_query_pairs(out: &mut Vec<u8>, params: &Vec<(Vec<u8>, Vec<u8>)>)
    ensures
        final(out)@ == old(out)@ + query_pairs(views(params@)),
{
    let ghost pv = views(params@);
    let mut i: usize = 0;
    while i < params.len()
        invariant
            pv == views(params@),
            pv.len() == params@.len(),
            0 <= i <= params@.len(),
            out@ == old(out)@ + query_pairs(pv.subrange(0, i as int)),
        decreases params.len() - i,
    {
        push_str_bytes(out, "&");
        push_encoded(out, &params[i].0);
        push_str_bytes(out, "=");
        push_encoded(out, &params[i].1);
        proof {
            let prefix = pv.subrange(0, i as int);
            let single = seq![pv[i as int]];
            assert(pv.subrange(0, i + 1 as int) =~= prefix + single);
            lemma_query_pairs_concat(prefix, single);
            assert(single.drop_first() =~= Seq::<(Seq<u8>, Seq<u8>)>::empty());
            assert(query_pairs(Seq::<(Seq<u8>, Seq<u8>)>::empty()) =~= Seq::<u8>::empty());
            assert(pv[i as int] == (params@[i as int].0@, params@[i as int].1@));
            assert(query_pairs(single) =~= crate::lit("&") + pe(params@[i as int].0@) + crate::lit(
                "=",
            ) + pe(params@[i as int].1@));
            assert(out@ =~= old(out)@ + query_pairs(pv.subrange(0, i + 1 as int)));
        }
        i = i + 1;
    }
    assert(pv.subrange(0, pv.len() as int) =~= pv);
}

/// Appends `url=<target>` followed by every parameter pair.
pub fn push_query_with_url(out: &mut Vec<u8>, target: &Vec<u8>, params: &Vec<(Vec<u8>, Vec<u8>)>)
    ensures
        final(out)@ == old(out)@ + query_with_url(target@, views(params@)),
{
    push_str_bytes(out, "url=");
    push_encoded(out, target);
    push_query_pairs(out, params);
}

/// The parameters with the reserved `url` pair dropped.
pub fn params_without_url(params: &Vec<(Vec<u8>, Vec<u8>)>) -> (r: Vec<(Vec<u8>, Vec<u8>)>)
    ensures
        views(r@) == without_url(views(params@)),
{
    let url_key = crate::text::str_bytes("url");
    let ghost pv = views(params@);
    let mut out: Vec<(Vec<u8>, Vec<u8>)> = Vec::new();
    let mut i: usize = 0;
    while i < params.len()
        invariant
            url_key@ == crate::lit("url"),
            pv == views(params@),
            pv.len() == params@.len(),
            0 <= i <= params@.len(),
            views(out@) == without_url(pv.subrange(0, i as int)),
        decreases params.len() - i,
    {
        proof {
            let prefix = pv.subrange(0, i as int);
            let single = seq![pv[i as int]];
            assert(pv.subrange(0, i + 1 as int) =~= prefix + single);
            lemma_without_url_concat(prefix, single);
            assert(single.drop_first() =~= Seq::<(Seq<u8>, Seq<u8>)>::empty());
            assert(without_url(Seq::<(Seq<u8>, Seq<u8>)>::empty()) =~= Seq::<(
                Seq<u8>,
                Seq<u8>,
            )>::empty());
            assert(pv[i as int] == (params@[i as int].0@, params@[i as int].1@));
        }
        if !eq_bytes(&params[i].0, &url_key) {
            let k = crate::urlref::copy_bytes(&params[i].0);
            let v = crate::urlref::copy_bytes(&params[i].1);
            out.push((k, v));
            proof {
                let single = seq![pv[i as int]];
                assert(without_url(single) =~= single);
                assert(views(out@) =~= without_url(pv.subrange(0, i as int)) + single);
                assert(views(out@) =~= without_url(pv.subrange(0, i + 1 as int)));
            }
        } else {
            proof {
                let single = seq![pv[i as int]];
                assert(without_url(single) =~= Seq::<(Seq<u8>, Seq<u8>)>::empty());
                assert(views(out@) =~= without_url(pv.subrange(0, i + 1 as int)));
            }
        }
        i = i + 1;
    }
    assert(pv.subrange(0, pv.len() as int) =~= pv);
    out
}

/// The value of the first `url` parameter, if any.
pub fn first_url_value(params: &Vec<(Vec<u8>, Vec<u8>)>) -> (r: Option<Vec<u8>>)
    ensures
        match r {
            Option::Some(v) => url_value(views(params@)) == Some(v@),
            Option::None => url_value(views(params@)) is None,
        },
{
    let url_key = crate::text::str_bytes("url");
    let ghost pv = views(params@);
    proof {
        assert(pv.subrange(0, pv.len() as int) =~= pv);
    }
    let mut i: usize = 0;
    while i < params.len()
        invariant
            url_key@ == crate::lit("url"),
            pv == views(params@),
            pv.len() == params@.len(),
            0 <= i <= params@.len(),
            url_value(pv) == url_value(pv.subrange(i as int, pv.len() as int)),
        decreases params.len() - i,
    {
        proof {
            let tail = pv.subrange(i as int, pv.len() as int);
            assert(tail[0] == pv[i as int]);
            assert(pv[i as int] == (params@[i as int].0@, params@[i as int].1@));
            assert(tail.drop_first() =~= pv.subrange(i + 1 as int, pv.len() as int));
        }
        if eq_bytes(&params[i].0, &url_key) {
            return Some(crate::urlref::copy_bytes(&params[i].1));
        }
        i = i + 1;
    }
    proof {
        assert(pv.subrange(pv.len() as int, pv.len() as int) =~= Seq::<(Seq<u8>, Seq<u8>)>::empty());
    }
    None
}

} // verus!
