//! Reconstituting upstream request headers from query parameters.
//!
//! Every query parameter except the reserved `url` becomes an upstream
//! header: the name is ASCII-lowercased, and pairs whose bytes cannot
//! form a header are silently dropped. An incoming `Range` header is
//! appended last, so that it wins over a same-named query parameter.

use crate::query::views;
use crate::text::{lower_spec, to_lower};
use vstd::prelude::*;

verus! {

/// A byte an HTTP header name may hold, in its lower-case form: the
/// token bytes `!#$%&'*+-.^_`|~`, digits and lower-case letters.
pub open spec fn name_byte_ok(b: u8) -> bool {
    ||| b == 0x21
    ||| 0x23 <= b <= 0x27
    ||| b == 0x2a
    ||| b == 0x2b
    ||| b == 0x2d
    ||| b == 0x2e
    ||| 0x30 <= b <= 0x39
    ||| 0x5e <= b <= 0x60
    ||| 0x61 <= b <= 0x7a
    ||| b == 0x7c
    ||| b == 0x7e
}

/// A valid header name: non-empty, token bytes only.
pub open spec fn name_ok(s: Seq<u8>) -> bool {
    s.len() > 0 && forall|i: int| 0 <= i < s.len() ==> name_byte_ok(s[i])
}

/// A byte an HTTP header value may hold: anything but a control byte,
/// except horizontal tab.
pub open spec fn value_byte_ok(b: u8) -> bool {
    b == 0x09 || (b >= 0x20 && b != 0x7f)
}

pub open spec fn value_ok(s: Seq<u8>) -> bool {
    forall|i: int| 0 <= i < s.len() ==> value_byte_ok(s[i])
}

/// The upstream headers a parameter list yields: names lowercased, the
/// reserved `url` key excluded, invalid pairs dropped.
pub open spec fn header_plan(params: Seq<(Seq<u8>, Seq<u8>)>) -> Seq<(Seq<u8>, Seq<u8>)>
    decreases params.len(),
{
    if params.len() == 0 {
        seq![]
    } else {
        let k = lower_spec(params[0].0);
        let v = params[0].1;
        let rest = header_plan(params.drop_first());
        if k != crate::lit("url") && name_ok(k) && value_ok(v) {
            seq![(k, v)] + rest
        } else {
            rest
        }
    }
}

/// The header plan with the incoming `Range` header appended last, so a
/// later insertion replaces any same-named pair from the parameters.
pub open spec fn header_plan_with_range(
    params: Seq<(Seq<u8>, Seq<u8>)>,
    range: Option<Seq<u8>>,
) -> Seq<(Seq<u8>, Seq<u8>)> {
    match range {
        Some(r) => if value_ok(r) {
            header_plan(params) + seq![(crate::lit("range"), r)]
        } else {
            header_plan(params)
        },
        None => header_plan(params),
    }
}

pub proof fn lemma_header_plan_concat(a: Seq<(Seq<u8>, Seq<u8>)>, b: Seq<(Seq<u8>, Seq<u8>)>)
    ensures
        header_plan(a + b) == header_plan(a) + header_plan(b),
    decreases a.len(),
{
    if a.len() == 0 {
        assert(a + b =~= b);
        assert(header_plan(a) + header_plan(b) =~= header_plan(b));
    } else {
        lemma_header_plan_concat(a.drop_first(), b);
        assert((a + b).drop_first() =~= a.drop_first() + b);
        assert(header_plan(a + b) =~= header_plan(a) + header_plan(b));
    }
}

/// Every parameter whose lowercased key is not `url` and whose bytes can
/// form a header is carried, lowercased, with its value unchanged.
pub proof fn lemma_headers_carried(params: Seq<(Seq<u8>, Seq<u8>)>, i: int)
    requires
        0 <= i < params.len(),
        lower_spec(params[i].0) != crate::lit("url"),
        name_ok(lower_spec(params[i].0)),
        value_ok(params[i].1),
    ensures
        header_plan(params).contains((lower_spec(params[i].0), params[i].1)),
    decreases params.len(),
{
    if i == 0 {
        assert(header_plan(params)[0] == (lower_spec(params[0].0), params[0].1));
    } else {
        lemma_headers_carried(params.drop_first(), i - 1);
        let p = (lower_spec(params[i].0), params[i].1);
        let j = choose|j: int|
            0 <= j < header_plan(params.drop_first()).len() && header_plan(params.drop_first())[j]
                == p;
        let k = lower_spec(params[0].0);
        if k != crate::lit("url") && name_ok(k) && value_ok(params[0].1) {
            assert(header_plan(params)[j + 1] == p);
        } else {
            assert(header_plan(params)[j] == p);
        }
    }
}

/// No upstream header is ever named `url`.
pub proof fn lemma_url_never_forwarded(
    params: Seq<(Seq<u8>, Seq<u8>)>,
    range: Option<Seq<u8>>,
    j: int,
)
    requires
        0 <= j < header_plan_with_range(params, range).len(),
    ensures
        header_plan_with_range(params, range)[j].0 != crate::lit("url"),
    decreases params.len(),
{
    lemma_lit_neq();
    if j < header_plan(params).len() {
        lemma_url_not_in_plan(params, j);
    }
}

proof fn lemma_url_not_in_plan(params: Seq<(Seq<u8>, Seq<u8>)>, j: int)
    requires
        0 <= j < header_plan(params).len(),
    ensures
        header_plan(params)[j].0 != crate::lit("url"),
    decreases params.len(),
{
    if params.len() > 0 {
        let k = lower_spec(params[0].0);
        if k != crate::lit("url") && name_ok(k) && value_ok(params[0].1) {
            if j > 0 {
                lemma_url_not_in_plan(params.drop_first(), j - 1);
            }
        } else {
            lemma_url_not_in_plan(params.drop_first(), j);
        }
    }
}

/// `range` and `url` are different names.
proof fn lemma_lit_neq()
    ensures
        crate::lit("range") != crate::lit("url"),
{
    reveal_strlit("range");
    reveal_strlit("url");
    assert(crate::lit("range").len() == 5) by {
        vstd::utf8::is_ascii_chars_encode_utf8("range"@);
    }
    assert(crate::lit("url").len() == 3) by {
        vstd::utf8::is_ascii_chars_encode_utf8("url"@);
    }
}

fn name_ok_exec(s: &Vec<u8>) -> (r: bool)
    ensures
        r == name_ok(s@),
{
    if s.len() == 0 {
        return false;
    }
    let mut i: usize = 0;
    while i < s.len()
        invariant
            0 <= i <= s@.len(),
            forall|k: int| 0 <= k < i ==> name_byte_ok(s@[k]),
        decreases s.len() - i,
    {
        let b = s[i];
        let ok = b == 0x21 || (0x23 <= b && b <= 0x27) || b == 0x2a || b == 0x2b || b == 0x2d || b
            == 0x2e || (0x30 <= b && b <= 0x39) || (0x5e <= b && b <= 0x60) || (0x61 <= b && b
            <= 0x7a) || b == 0x7c || b == 0x7e;
        if !ok {
            return false;
        }
        i = i + 1;
    }
    true
}

fn value_ok_exec(s: &Vec<u8>) -> (r: bool)
    ensures
        r == value_ok(s@),
{
    let mut i: usize = 0;
    while i < s.len()
        invariant
            0 <= i <= s@.len(),
            forall|k: int| 0 <= k < i ==> value_byte_ok(s@[k]),
        decreases s.len() - i,
    {
        let b = s[i];
        if !(b == 0x09 || (b >= 0x20 && b != 0x7f)) {
            return false;
        }
        i = i + 1;
    }
    true
}

/// The upstream headers for a request: the parameter plan, then the
/// incoming `Range` header when its bytes are acceptable.
pub fn build_upstream_headers(params: &Vec<(Vec<u8>, Vec<u8>)>, range: &Option<Vec<u8>>) -> (r: Vec<
    (Vec<u8>, Vec<u8>),
>)
    ensures
        views(r@) == header_plan_with_range(
            views(params@),
            match range {
                Some(v) => Some(v@),
                None => None,
            },
        ),
{
    let url_key = crate::text::str_bytes("url");
    let ghost pv = views(params@);
    let mut out: Vec<(Vec<u8>, Vec<u8>)> = Vec::new();
    let mut i: usize = 0;
    while i < params.len()
        invariant
            url_key@ == crate::lit("url"),
            pv == views(params@),
            pv.len() == params@.len(),
            0 <= i <= params@.len(),
            views(out@) == header_plan(pv.subrange(0, i as int)),
        decreases params.len() - i,
    {
        proof {
            let prefix = pv.subrange(0, i as int);
            let single = seq![pv[i as int]];
            assert(pv.subrange(0, i + 1 as int) =~= prefix + single);
            lemma_header_plan_concat(prefix, single);
            assert(single.drop_first() =~= Seq::<(Seq<u8>, Seq<u8>)>::empty());
            assert(header_plan(Seq::<(Seq<u8>, Seq<u8>)>::empty()) =~= Seq::<(
                Seq<u8>,
                Seq<u8>,
            )>::empty());
            assert(pv[i as int] == (params@[i as int].0@, params@[i as int].1@));
        }
        let lk = to_lower(&params[i].0);
        if !crate::query::eq_bytes(&lk, &url_key) && name_ok_exec(&lk) && value_ok_exec(
            &params[i].1,
        ) {
            let v = crate::urlref::copy_bytes(&params[i].1);
            out.push((lk, v));
            proof {
                let single = seq![pv[i as int]];
                assert(header_plan(single) =~= seq![
                    (lower_spec(pv[i as int].0), pv[i as int].1),
                ]);
                assert(views(out@) =~= header_plan(pv.subrange(0, i as int)) + header_plan(single));
                assert(views(out@) =~= header_plan(pv.subrange(0, i + 1 as int)));
            }
        } else {
            proof {
                let single = seq![pv[i as int]];
                assert(header_plan(single) =~= Seq::<(Seq<u8>, Seq<u8>)>::empty());
                assert(views(out@) =~= header_plan(pv.subrange(0, i + 1 as int)));
            }
        }
        i = i + 1;
    }
    proof {
        assert(pv.subrange(0, pv.len() as int) =~= pv);
    }
    match range {
        Option::Some(rv) => {
            if value_ok_exec(rv) {
                let rk = crate::text::str_bytes("range");
                let v = crate::urlref::copy_bytes(rv);
                out.push((rk, v));
                proof {
                    assert(views(out@) =~= header_plan(pv) + seq![(crate::lit("range"), rv@)]);
                }
            }
        },
        Option::None => {},
    }
    out
}

} // verus!
