//! Parsing window-title listings.
//!
//! The shell asks each known media-player application for its window
//! titles and receives one comma-separated listing per application;
//! this module turns those listings into title lists and gathers them.

use crate::strbytes::{bytes_of_string, into_string};
use crate::text::{
    find_from, find_spec, is_space, lemma_find_found, sub_vec, trim_bytes, trim_end_spec,
    trim_spec, trim_start_spec,
};
use vstd::prelude::*;
use vstd::utf8::{
    decode_utf8_encode_utf8, encode_utf8, encode_utf8_valid_utf8,
    is_char_boundary_iff_not_is_continuation_byte, is_continuation_byte, is_leading_byte_width_1,
    pop_first_scalar, valid_first_scalar, valid_utf8, valid_utf8_split,
};

verus! {

/// The listing split on the `", "` separators.
pub open spec fn split_items(s: Seq<u8>) -> Seq<Seq<u8>>
    decreases s.len(),
{
    match find_spec(s, crate::lit(", "), 0) {
        Option::None => seq![s],
        Option::Some(i) => if 0 <= i && i + 2 <= s.len() {
            seq![s.subrange(0, i)] + split_items(s.subrange(i + 2, s.len() as int))
        } else {
            // never reached: a found position leaves room for the separator
            seq![s]
        },
    }
}

/// The pieces, trimmed, with blanks dropped.
pub open spec fn titles_spec(pieces: Seq<Seq<u8>>) -> Seq<Seq<u8>>
    decreases pieces.len(),
{
    if pieces.len() == 0 {
        seq![]
    } else {
        let t = trim_spec(pieces[0]);
        (if t.len() == 0 {
            seq![]
        } else {
            seq![t]
        }) + titles_spec(pieces.drop_first())
    }
}

/// The UTF-8 bytes of each string in a list.
pub open spec fn strs_bytes(v: Seq<String>) -> Seq<Seq<u8>> {
    v.map_values(|s: String| encode_utf8(s@))
}

/// The titles one application's listing yields.
pub open spec fn titles_of(raw: Seq<char>) -> Seq<Seq<u8>> {
    titles_spec(split_items(trim_spec(encode_utf8(raw))))
}

/// Whether a listing yields anything: it is non-blank and holds at
/// least one non-blank title.
pub open spec fn accepted(raw: Seq<char>) -> bool {
    trim_spec(encode_utf8(raw)).len() > 0 && titles_of(raw).len() > 0
}

/// Stripping an ASCII byte off either end of a valid UTF-8 string
/// keeps it valid.
proof fn lemma_trim_start_valid(s: Seq<u8>)
    requires
        valid_utf8(s),
    ensures
        valid_utf8(trim_start_spec(s)),
    decreases s.len(),
{
    if s.len() > 0 && is_space(s[0]) {
        assert(is_leading_byte_width_1(s[0]));
        assert(valid_first_scalar(s));
        assert(pop_first_scalar(s) =~= s.drop_first());
        lemma_trim_start_valid(s.drop_first());
    }
}

proof fn lemma_trim_end_valid(s: Seq<u8>)
    requires
        valid_utf8(s),
    ensures
        valid_utf8(trim_end_spec(s)),
    decreases s.len(),
{
    if s.len() > 0 && is_space(s.last()) {
        assert(!is_continuation_byte(s.last()));
        is_char_boundary_iff_not_is_continuation_byte(s, s.len() - 1);
        valid_utf8_split(s, s.len() - 1);
        assert(s.subrange(0, s.len() - 1) =~= s.drop_last());
        lemma_trim_end_valid(s.drop_last());
    }
}

/// A trimmed valid UTF-8 string is valid UTF-8.
pub proof fn lemma_trim_valid(s: Seq<u8>)
    requires
        valid_utf8(s),
    ensures
        valid_utf8(trim_spec(s)),
{
    lemma_trim_start_valid(s);
    lemma_trim_end_valid(trim_start_spec(s));
}

/// Every piece of the `", "` split of a valid UTF-8 string is valid
/// UTF-8.
proof fn lemma_split_items_valid(s: Seq<u8>)
    requires
        valid_utf8(s),
    ensures
        forall|k: int|
            0 <= k < split_items(s).len() ==> valid_utf8(#[trigger] split_items(s)[k]),
    decreases s.len(),
{
    reveal_strlit(", ");
    vstd::utf8::is_ascii_chars_encode_utf8(", "@);
    match find_spec(s, crate::lit(", "), 0) {
        Option::None => {},
        Option::Some(i) => {
            lemma_find_found(s, crate::lit(", "), 0);
            assert(s.subrange(i, i + 2) == crate::lit(", "));
            assert(s[i] == crate::lit(", ")[0]) by {
                assert(s.subrange(i, i + 2)[0] == s[i]);
            }
            assert(!is_continuation_byte(s[i]));
            is_char_boundary_iff_not_is_continuation_byte(s, i);
            valid_utf8_split(s, i);
            let right = s.subrange(i, s.len() as int);
            // peel the comma and the blank off the right part
            assert(right[0] == s[i]);
            assert(is_leading_byte_width_1(right[0]));
            assert(valid_first_scalar(right));
            let right1 = pop_first_scalar(right);
            assert(right1 =~= s.subrange(i + 1, s.len() as int));
            assert(valid_utf8(right1));
            assert(right1[0] == s[i + 1]);
            assert(s[i + 1] == crate::lit(", ")[1]) by {
                assert(s.subrange(i, i + 2)[1] == s[i + 1]);
            }
            assert(is_leading_byte_width_1(right1[0]));
            assert(valid_first_scalar(right1));
            let rest = pop_first_scalar(right1);
            assert(rest =~= s.subrange(i + 2, s.len() as int));
            assert(valid_utf8(rest));
            lemma_split_items_valid(rest);
            assert forall|k: int| 0 <= k < split_items(s).len() implies valid_utf8(
                #[trigger] split_items(s)[k],
            ) by {
                if k == 0 {
                    assert(split_items(s)[0] == s.subrange(0, i));
                } else {
                    assert(split_items(s)[k] == split_items(rest)[k - 1]);
                }
            }
        },
    }
}

/// The byte strings of each piece.
pub open spec fn piece_views(pieces: Seq<Vec<u8>>) -> Seq<Seq<u8>> {
    pieces.map_values(|p: Vec<u8>| p@)
}

/// Splits a listing on its `", "` separators.
fn split_items_exec(s: &Vec<u8>) -> (r: Vec<Vec<u8>>)
    ensures
        piece_views(r@) == split_items(s@),
    decreases s@.len(),
{
    proof {
        reveal_strlit(", ");
        vstd::utf8::is_ascii_chars_encode_utf8(", "@);
    }
    let sep = crate::text::str_bytes(", ");
    let n = s.len();
    match find_from(s, &sep, 0) {
        Option::None => {
            let mut out: Vec<Vec<u8>> = Vec::new();
            out.push(crate::urlref::copy_bytes(s));
            proof {
                assert(piece_views(out@) =~= split_items(s@));
            }
            out
        },
        Option::Some(i) => {
            proof {
                lemma_find_found(s@, sep@, 0);
            }
            let head = sub_vec(s, 0, i);
            let rest = sub_vec(s, i + 2, n);
            let tail = split_items_exec(&rest);
            let mut out: Vec<Vec<u8>> = Vec::new();
            out.push(head);
            let mut k: usize = 0;
            while k < tail.len()
                invariant
                    0 <= k <= tail@.len(),
                    out@.len() == k + 1,
                    out@[0]@ == s@.subrange(0, i as int),
                    forall|m: int| 1 <= m < k + 1 ==> (#[trigger] out@[m])@ == tail@[m - 1]@,
                decreases tail.len() - k,
            {
                out.push(crate::urlref::copy_bytes(&tail[k]));
                k = k + 1;
            }
            proof {
                let items = split_items(s@);
                assert(items == seq![s@.subrange(0, i as int)] + split_items(rest@));
                assert forall|m: int| 0 <= m < out@.len() implies piece_views(out@)[m]
                    == items[m] by {
                    assert(piece_views(out@)[m] == out@[m]@);
                    if m > 0 {
                        assert(out@[m]@ == tail@[m - 1]@);
                        assert(piece_views(tail@)[m - 1] == tail@[m - 1]@);
                        assert(items[m] == split_items(rest@)[m - 1]);
                    }
                }
                assert(piece_views(out@) =~= split_items(s@));
            }
            out
        },
    }
}

proof fn lemma_titles_concat(a: Seq<Seq<u8>>, b: Seq<Seq<u8>>)
    ensures
        titles_spec(a + b) == titles_spec(a) + titles_spec(b),
    decreases a.len(),
{
    if a.len() == 0 {
        assert(a + b =~= b);
        assert(titles_spec(a) + titles_spec(b) =~= titles_spec(b));
    } else {
        lemma_titles_concat(a.drop_first(), b);
        assert((a + b).drop_first() =~= a.drop_first() + b);
        assert(titles_spec(a + b) =~= titles_spec(a) + titles_spec(b));
    }
}

/// Parses one application's listing: the titles are the `", "`-split
/// pieces, trimmed, with blanks dropped; a blank listing or one
/// without any title yields nothing.
pub fn parse_window_title_list(raw: &String) -> (r: Option<Vec<String>>)
    ensures
        match r {
            Some(v) => accepted(raw@) && strs_bytes(v@) == titles_of(raw@),
            None => !accepted(raw@),
        },
{
    let bytes = bytes_of_string(raw);
    proof {
        encode_utf8_valid_utf8(raw@);
    }
    let trimmed = trim_bytes(&bytes);
    if trimmed.len() == 0 {
        return None;
    }
    proof {
        lemma_trim_valid(bytes@);
        lemma_split_items_valid(trimmed@);
    }
    let pieces = split_items_exec(&trimmed);
    let mut out: Vec<String> = Vec::new();
    let ghost pv = piece_views(pieces@);
    let mut k: usize = 0;
    while k < pieces.len()
        invariant
            pv == piece_views(pieces@),
            pv == split_items(trimmed@),
            valid_utf8(trimmed@),
            forall|j: int| 0 <= j < pv.len() ==> valid_utf8(#[trigger] pv[j]),
            0 <= k <= pieces@.len(),
            pv.len() == pieces@.len(),
            strs_bytes(out@) == titles_spec(pv.subrange(0, k as int)),
        decreases pieces.len() - k,
    {
        proof {
            let prefix = pv.subrange(0, k as int);
            let single = seq![pv[k as int]];
            assert(pv.subrange(0, k + 1 as int) =~= prefix + single);
            lemma_titles_concat(prefix, single);
            assert(single.drop_first() =~= Seq::<Seq<u8>>::empty());
            assert(titles_spec(Seq::<Seq<u8>>::empty()) =~= Seq::<Seq<u8>>::empty());
            assert(pv[k as int] == pieces@[k as int]@);
        }
        let tp = trim_bytes(&pieces[k]);
        if tp.len() > 0 {
            proof {
                lemma_trim_valid(pieces@[k as int]@);
            }
            let title = into_string(tp);
            out.push(title);
            proof {
                decode_utf8_encode_utf8(trim_spec(pv[k as int]));
                assert(strs_bytes(out@) =~= titles_spec(pv.subrange(0, k + 1 as int)));
            }
        } else {
            proof {
                assert(strs_bytes(out@) =~= titles_spec(pv.subrange(0, k + 1 as int)));
            }
        }
        k = k + 1;
    }
    proof {
        assert(pv.subrange(0, pv.len() as int) =~= pv);
    }
    if out.len() == 0 {
        return None;
    }
    Some(out)
}

/// The titles every listing yields, in listing order; a missing or
/// empty listing contributes nothing.
pub open spec fn gathered(outputs: Seq<Option<String>>) -> Seq<Seq<u8>>
    decreases outputs.len(),
{
    if outputs.len() == 0 {
        seq![]
    } else {
        (match outputs[0] {
            Some(s) => if accepted(s@) {
                titles_of(s@)
            } else {
                seq![]
            },
            None => seq![],
        }) + gathered(outputs.drop_first())
    }
}

proof fn lemma_gathered_concat(a: Seq<Option<String>>, b: Seq<Option<String>>)
    ensures
        gathered(a + b) == gathered(a) + gathered(b),
    decreases a.len(),
{
    if a.len() == 0 {
        assert(a + b =~= b);
        assert(gathered(a) + gathered(b) =~= gathered(b));
    } else {
        lemma_gathered_concat(a.drop_first(), b);
        assert((a + b).drop_first() =~= a.drop_first() + b);
        assert(gathered(a + b) =~= gathered(a) + gathered(b));
    }
}

/// Gathers the window titles of every application that answered: each
/// answered listing is parsed, and every title found is kept, in
/// order.
pub fn get_all_visible_window_titles(outputs: Vec<Option<String>>) -> (r: Vec<String>)
    ensures
        strs_bytes(r@) == gathered(outputs@),
{
    let mut titles: Vec<String> = Vec::new();
    proof {
        assert(outputs@.subrange(0, 0) =~= Seq::<Option<String>>::empty());
        assert(strs_bytes(titles@) =~= gathered(outputs@.subrange(0, 0)));
    }
    let mut i: usize = 0;
    while i < outputs.len()
        invariant
            0 <= i <= outputs@.len(),
            strs_bytes(titles@) == gathered(outputs@.subrange(0, i as int)),
        decreases outputs.len() - i,
    {
        proof {
            let prefix = outputs@.subrange(0, i as int);
            let single = seq![outputs@[i as int]];
            assert(outputs@.subrange(0, i + 1 as int) =~= prefix + single);
            lemma_gathered_concat(prefix, single);
            assert(single.drop_first() =~= Seq::<Option<String>>::empty());
            assert(gathered(Seq::<Option<String>>::empty()) =~= Seq::<Seq<u8>>::empty());
        }
        match &outputs[i] {
            Option::Some(raw) => {
                match parse_window_title_list(raw) {
                    Option::Some(found) => {
                        let ghost old_titles = titles@;
                        let mut j: usize = 0;
                        while j < found.len()
                            invariant
                                0 <= j <= found@.len(),
                                titles@.len() == old_titles.len() + j,
                                forall|m: int|
                                    0 <= m < old_titles.len() ==> titles@[m] == old_titles[m],
                                forall|m: int|
                                    0 <= m < j ==> titles@[old_titles.len() + m] == found@[m],
                            decreases found.len() - j,
                        {
                            titles.push(found[j].clone());
                            j = j + 1;
                        }
                        proof {
                            assert forall|m: int| 0 <= m < titles@.len() implies strs_bytes(
                                titles@,
                            )[m] == (strs_bytes(old_titles) + strs_bytes(found@))[m] by {
                                assert(strs_bytes(titles@)[m] == encode_utf8(titles@[m]@));
                                if m < old_titles.len() {
                                    assert(titles@[m] == old_titles[m]);
                                } else {
                                    assert(titles@[m] == found@[m - old_titles.len()]);
                                }
                            }
                            assert(strs_bytes(titles@) =~= strs_bytes(old_titles) + strs_bytes(
                                found@,
                            ));
                            assert(strs_bytes(titles@) =~= gathered(
                                outputs@.subrange(0, i + 1 as int),
                            ));
                        }
                    },
                    Option::None => {
                        proof {
                            assert(strs_bytes(titles@) =~= gathered(
                                outputs@.subrange(0, i + 1 as int),
                            ));
                        }
                    },
                }
            },
            Option::None => {
                proof {
                    assert(strs_bytes(titles@) =~= gathered(outputs@.subrange(0, i + 1 as int)));
                }
            },
        }
        i = i + 1;
    }
    proof {
        assert(outputs@.subrange(0, outputs@.len() as int) =~= outputs@);
    }
    titles
}

} // verus!
