//! Parsing of the request's vendor filter: a comma-separated list of vendor
//! kinds, each entry trimmed of surrounding ASCII whitespace, ASCII-folded
//! to lower case, and dropped when empty.
//!
//! The work is done byte-wise on the string's UTF-8 encoding: a comma or an
//! ASCII whitespace byte never occurs inside a multi-byte character, so the
//! splitting and trimming are exact for any input; case folding is applied
//! to the ASCII letters, which is where vendor kinds live.

use vstd::prelude::*;
use vstd::string::StringSliceAdditionalSpecFns;

verus! {

/// ASCII whitespace that is trimmed from a filter entry.
pub open spec fn is_filter_space(b: u8) -> bool {
    b == 32 || b == 9 || b == 10 || b == 13
}

/// ASCII lower-case folding of one byte.
pub open spec fn to_lower_byte(b: u8) -> u8 {
    if 65 <= b && b <= 90 {
        (b + 32) as u8
    } else {
        b
    }
}

/// The bytes with leading and trailing ASCII whitespace removed.
pub open spec fn trim_spaces(s: Seq<u8>) -> Seq<u8>
    decreases s.len(),
{
    if s.len() > 0 && is_filter_space(s[0]) {
        trim_spaces(s.drop_first())
    } else if s.len() > 0 && is_filter_space(s.last()) {
        trim_spaces(s.drop_last())
    } else {
        s
    }
}

/// ASCII lower-case folding of a byte string.
pub open spec fn lower_bytes(s: Seq<u8>) -> Seq<u8> {
    s.map_values(|b: u8| to_lower_byte(b))
}

/// One raw entry, cleaned: trimmed, then folded.
pub open spec fn clean_piece(p: Seq<u8>) -> Seq<u8> {
    lower_bytes(trim_spaces(p))
}

/// The comma-separated entries of `s`, in order, separators removed; always
/// at least one entry, and empty entries kept (they are dropped later).
pub open spec fn split_commas(s: Seq<u8>) -> Seq<Seq<u8>>
    decreases s.len(),
{
    if s.len() == 0 {
        seq![Seq::<u8>::empty()]
    } else if s[0] == 44 {
        seq![Seq::<u8>::empty()] + split_commas(s.drop_first())
    } else {
        let rest = split_commas(s.drop_first());
        seq![seq![s[0]] + rest[0]] + rest.drop_first()
    }
}

/// The characters `String::from_utf8_lossy` decodes a byte string to.
pub uninterp spec fn chars_of_bytes(b: Seq<u8>) -> Seq<char>;

/// Relies on std's `String::from_utf8_lossy`: the result depends on the
/// bytes alone, and a byte string that is all ASCII decodes to exactly the
/// characters with the byte's values.
#[verifier::external_body]
fn bytes_to_string(b: &Vec<u8>) -> (r: String)
    ensures
        r@ == chars_of_bytes(b@),
        (forall|i: int| 0 <= i < b@.len() ==> b@[i] < 128) ==> r@ == b@.map_values(
            |x: u8| x as char,
        ),
{
    String::from_utf8_lossy(b.as_slice()).into_owned()
}

/// The characters one cleaned entry decodes to: ASCII bytes are exactly the
/// characters with the byte's values; anything else is whatever
/// `String::from_utf8_lossy` makes of it.
pub open spec fn decode_entry(b: Seq<u8>) -> Seq<char> {
    if forall|i: int| 0 <= i < b.len() ==> b[i] < 128 {
        b.map_values(|x: u8| x as char)
    } else {
        chars_of_bytes(b)
    }
}

/// The cleaned, non-empty entries among `ps`, decoded to strings.
pub open spec fn kept_pieces(ps: Seq<Seq<u8>>) -> Seq<Seq<char>>
    decreases ps.len(),
{
    if ps.len() == 0 {
        Seq::empty()
    } else {
        let c = clean_piece(ps[0]);
        let rest = kept_pieces(ps.drop_first());
        if c.len() == 0 {
            rest
        } else {
            seq![decode_entry(c)] + rest
        }
    }
}

/// What [`parse_llm_filter`] returns, over the input's UTF-8 bytes.
pub open spec fn spec_parse_filter(s: Seq<u8>) -> Seq<Seq<char>> {
    kept_pieces(split_commas(s))
}

/// Extending the input by one byte extends the last entry, or opens a new
/// one at a comma.
proof fn lemma_split_snoc(s: Seq<u8>, c: u8)
    ensures
        c == 44 ==> split_commas(s.push(c)) == split_commas(s).push(Seq::<u8>::empty()),
        c != 44 ==> split_commas(s.push(c)) == split_commas(s).update(
            split_commas(s).len() - 1,
            split_commas(s).last().push(c),
        ),
        split_commas(s).len() >= 1,
    decreases s.len(),
{
    lemma_split_nonempty(s);
    if s.len() == 0 {
        assert(s.push(c).drop_first() =~= Seq::<u8>::empty());
        assert(s =~= Seq::<u8>::empty());
        assert(split_commas(Seq::<u8>::empty()) == seq![Seq::<u8>::empty()]);
        if c == 44 {
            assert(split_commas(s.push(c)) =~~= split_commas(s).push(Seq::<u8>::empty()));
        } else {
            assert(split_commas(s.push(c)) =~~= split_commas(s).update(
                split_commas(s).len() - 1,
                split_commas(s).last().push(c),
            ));
        }
    } else {
        lemma_split_snoc(s.drop_first(), c);
        lemma_split_nonempty(s.drop_first());
        assert(s.push(c).drop_first() =~= s.drop_first().push(c));
        assert(s.push(c)[0] == s[0]);
        if c == 44 {
            assert(split_commas(s.push(c)) =~~= split_commas(s).push(Seq::<u8>::empty()));
        } else {
            assert(split_commas(s.push(c)) =~~= split_commas(s).update(
                split_commas(s).len() - 1,
                split_commas(s).last().push(c),
            ));
        }
    }
}

/// Splitting always yields at least one entry.
proof fn lemma_split_nonempty(s: Seq<u8>)
    ensures
        split_commas(s).len() >= 1,
    decreases s.len(),
{
    if s.len() > 0 {
        lemma_split_nonempty(s.drop_first());
    }
}

/// Runtime form of [`is_filter_space`].
fn is_space_byte(b: u8) -> (r: bool)
    ensures
        r == is_filter_space(b),
{
    b == 32 || b == 9 || b == 10 || b == 13
}

/// Trims and folds one raw entry; runtime form of [`clean_piece`].
fn clean_piece_bytes(p: &Vec<u8>) -> (r: Vec<u8>)
    ensures
        r@ == clean_piece(p@),
{
    let mut a: usize = 0;
    let mut b: usize = p.len();
    proof {
        assert(p@.subrange(0, p@.len() as int) =~= p@);
    }
    while a < b
        invariant
            0 <= a <= b <= p.len(),
            trim_spaces(p@) == trim_spaces(p@.subrange(a as int, b as int)),
        ensures
            0 <= a <= b <= p.len(),
            trim_spaces(p@) == trim_spaces(p@.subrange(a as int, b as int)),
            a < b ==> !is_filter_space(p@[a as int]) && !is_filter_space(p@[b as int - 1]),
        decreases b - a,
    {
        let ghost w = p@.subrange(a as int, b as int);
        if is_space_byte(p[a]) {
            proof {
                assert(w.drop_first() =~= p@.subrange(a as int + 1, b as int));
            }
            a += 1;
        } else if is_space_byte(p[b - 1]) {
            proof {
                assert(w.drop_last() =~= p@.subrange(a as int, b as int - 1));
            }
            b -= 1;
        } else {
            break;
        }
    }
    proof {
        if a < b {
            assert(trim_spaces(p@.subrange(a as int, b as int)) == p@.subrange(
                a as int,
                b as int,
            ));
        } else {
            assert(p@.subrange(a as int, b as int) =~= Seq::<u8>::empty());
        }
    }
    let mut out: Vec<u8> = Vec::new();
    let mut k: usize = a;
    while k < b
        invariant
            a <= k <= b <= p.len(),
            out@ =~= lower_bytes(p@.subrange(a as int, k as int)),
        decreases b - k,
    {
        let c = p[k];
        if 65 <= c && c <= 90 {
            out.push(c + 32);
        } else {
            out.push(c);
        }
        proof {
            assert(p@.subrange(a as int, k as int + 1) =~= p@.subrange(
                a as int,
                k as int,
            ).push(p@[k as int]));
            assert(out@ =~= lower_bytes(p@.subrange(a as int, k as int + 1)));
        }
        k += 1;
    }
    proof {
        assert(out@ =~= clean_piece(p@));
    }
    out
}

/// Parses the request's comma-separated vendor filter: each entry is
/// trimmed of surrounding ASCII whitespace, ASCII-folded to lower case, and
/// kept only when something is left. An input with no non-empty entry
/// yields an empty list, which the store treats as no filter at all.
pub fn parse_llm_filter(s: &str) -> (r: Vec<String>)
    ensures
        r.deep_view() == spec_parse_filter(s.spec_bytes()),
{
    let bytes: &[u8] = s.as_bytes();
    let n = bytes.len();
    let mut pieces: Vec<Vec<u8>> = Vec::new();
    let mut cur: Vec<u8> = Vec::new();
    let mut i: usize = 0;
    proof {
        assert(bytes@.take(0) =~= Seq::<u8>::empty());
        assert(pieces.deep_view().push(cur@) =~~= split_commas(bytes@.take(0)));
    }
    while i < n
        invariant
            n == bytes@.len(),
            0 <= i <= n,
            pieces.deep_view().push(cur@) == split_commas(bytes@.take(i as int)),
        decreases n - i,
    {
        let c = bytes[i];
        proof {
            lemma_split_snoc(bytes@.take(i as int), c);
            assert(bytes@.take(i as int + 1) =~= bytes@.take(i as int).push(c));
        }
        if c == 44 {
            pieces.push(cur);
            cur = Vec::new();
            proof {
                assert(pieces.deep_view().push(cur@) =~~= split_commas(
                    bytes@.take(i as int + 1),
                ));
            }
        } else {
            cur.push(c);
            proof {
                assert(pieces.deep_view().push(cur@) =~~= split_commas(
                    bytes@.take(i as int + 1),
                ));
            }
        }
        i += 1;
    }
    pieces.push(cur);
    proof {
        assert(bytes@.take(n as int) =~= bytes@);
        assert(pieces.deep_view() =~~= split_commas(s.spec_bytes()));
    }
    let ghost all = pieces.deep_view();
    let mut out: Vec<String> = Vec::new();
    let mut j: usize = 0;
    proof {
        assert(all.skip(0) =~= all);
    }
    while j < pieces.len()
        invariant
            0 <= j <= pieces.len(),
            all == pieces.deep_view(),
            out.deep_view() + kept_pieces(all.skip(j as int)) == kept_pieces(all),
        decreases pieces.len() - j,
    {
        proof {
            assert(all.skip(j as int).drop_first() =~= all.skip(j as int + 1));
            assert(all.skip(j as int)[0] == pieces.deep_view()[j as int]);
            assert(all[j as int] =~= pieces@[j as int]@);
        }
        let cleaned = clean_piece_bytes(&pieces[j]);
        if cleaned.len() > 0 {
            let entry = bytes_to_string(&cleaned);
            proof {
                assert(entry@ == decode_entry(cleaned@));
            }
            out.push(entry);
            proof {
                assert(out.deep_view() + kept_pieces(all.skip(j as int + 1)) =~~= kept_pieces(
                    all,
                ));
            }
        } else {
            proof {
                assert(out.deep_view() + kept_pieces(all.skip(j as int + 1)) =~~= kept_pieces(
                    all,
                ));
            }
        }
        j += 1;
    }
    proof {
        assert(all.skip(pieces@.len() as int) =~= Seq::<Seq<u8>>::empty());
        assert(out.deep_view() =~~= spec_parse_filter(s.spec_bytes()));
    }
    out
}

} // verus!
