//! The decoder: tag-byte dispatch, variable-length big-endian length
//! decoding, and recursive list parsing.
//!
//! The first byte of an encoded item selects one of five disjoint rules that
//! together cover all 256 byte values:
//!
//! * `0x00..=0x7f` — the byte is itself a one-byte atomic item;
//! * `0x80..=0xb7` — short string: the next `tag - 0x80` bytes;
//! * `0xb8..=0xbf` — long string: `tag - 0xb7` big-endian length bytes,
//!   then that many payload bytes;
//! * `0xc0..=0xf7` — short list: the next `tag - 0xc0` bytes are the
//!   concatenated encodings of the children;
//! * `0xf8..=0xff` — long list: as the long string, but the payload is the
//!   concatenated encodings of the children.

use vstd::prelude::*;
use vstd::arithmetic::power2::{pow2, lemma_pow2_adds, lemma_pow2_strictly_increases, lemma2_to64};
use vstd::layout::layout_of_primitives;
use vstd::layout::unsigned_int_max_values;
use vstd::slice::{slice_subrange, slice_to_vec};

use crate::item::Parsed;
use crate::item::ParsedView;
use crate::item::RlpError;
use crate::item::view_of_seq;
use crate::item::lemma_view_of_seq_index;

verus! {

/// The value of a big-endian byte string: each byte shifts the running
/// total left by eight bits and is added in.
pub open spec fn spec_be_len(bytes: Seq<u8>) -> nat
    decreases bytes.len(),
{
    if bytes.len() == 0 {
        0
    } else {
        (spec_be_len(bytes.drop_last()) * 256 + bytes.last()) as nat
    }
}

/// What one encoded item at the front of `data` decodes to, and how many
/// bytes it occupies; or the error the decoder reports.
pub open spec fn spec_parse_item(data: Seq<u8>) -> Result<(ParsedView, nat), RlpError>
    decreases data.len(), 0int,
{
    if data.len() == 0 {
        Err(RlpError::EmptyInput)
    } else {
        let tag = data[0];
        if tag <= 0x7f {
            Ok((ParsedView::Bytes(data.subrange(0, 1)), 1nat))
        } else if tag <= 0xb7 {
            let len = (tag - 0x80) as nat;
            if data.len() < 1 + len {
                Err(RlpError::TruncatedInput)
            } else {
                Ok((ParsedView::Bytes(data.subrange(1, 1 + len as int)), 1 + len))
            }
        } else if tag <= 0xbf {
            let lenlen = (tag - 0xb7) as nat;
            if data.len() < 1 + lenlen {
                Err(RlpError::TruncatedInput)
            } else if 8 * lenlen > usize::BITS {
                Err(RlpError::LengthOverflow)
            } else {
                let len = spec_be_len(data.subrange(1, 1 + lenlen as int));
                if data.len() < 1 + lenlen + len {
                    Err(RlpError::TruncatedInput)
                } else {
                    Ok(
                        (
                            ParsedView::Bytes(data.subrange(1 + lenlen as int, 1 + lenlen as int + len as int)),
                            1 + lenlen + len,
                        ),
                    )
                }
            }
        } else if tag <= 0xf7 {
            let len = (tag - 0xc0) as nat;
            if data.len() < 1 + len {
                Err(RlpError::TruncatedInput)
            } else {
                match spec_parse_list(data.subrange(1, 1 + len as int)) {
                    Ok(items) => Ok((ParsedView::List(items), 1 + len)),
                    Err(e) => Err(e),
                }
            }
        } else {
            let lenlen = (tag - 0xf7) as nat;
            if data.len() < 1 + lenlen {
                Err(RlpError::TruncatedInput)
            } else if 8 * lenlen > usize::BITS {
                Err(RlpError::LengthOverflow)
            } else {
                let len = spec_be_len(data.subrange(1, 1 + lenlen as int));
                if data.len() < 1 + lenlen + len {
                    Err(RlpError::TruncatedInput)
                } else {
                    match spec_parse_list(data.subrange(1 + lenlen as int, 1 + lenlen as int + len as int)) {
                        Ok(items) => Ok((ParsedView::List(items), 1 + lenlen + len)),
                        Err(e) => Err(e),
                    }
                }
            }
        }
    }
}

/// What a whole payload decodes to as a sequence of items: items are read
/// from the front until the payload is exhausted; an empty payload is an
/// empty sequence.
pub open spec fn spec_parse_list(data: Seq<u8>) -> Result<Seq<ParsedView>, RlpError>
    decreases data.len(), 1int,
{
    if data.len() == 0 {
        Ok(Seq::empty())
    } else {
        match spec_parse_item(data) {
            Err(e) => Err(e),
            Ok((item, used)) => {
                // An item always uses 1..=data.len() bytes (see
                // `lemma_spec_parse_item_used`); the clamp only serves the
                // termination measure.
                let next = if 1 <= used <= data.len() {
                    used as int
                } else {
                    data.len() as int
                };
                match spec_parse_list(data.subrange(next, data.len() as int)) {
                    Err(e) => Err(e),
                    Ok(rest) => Ok(seq![item] + rest),
                }
            },
        }
    }
}

/// A successfully decoded item occupies at least one byte and no more than
/// the whole slice.
pub proof fn lemma_spec_parse_item_used(data: Seq<u8>)
    ensures
        spec_parse_item(data) matches Ok(p) ==> 1 <= p.1 <= data.len(),
{
}

/// Reads a variable-length big-endian unsigned integer. Reports
/// `LengthOverflow` exactly when the value would need more bits than this
/// platform's word.
pub fn var_len_be_to_usize(data: &[u8]) -> (r: Result<usize, RlpError>)
    ensures
        match r {
            Ok(n) => 8 * data@.len() <= usize::BITS && n == spec_be_len(data@),
            Err(e) => 8 * data@.len() > usize::BITS && e == RlpError::LengthOverflow,
        },
{
    proof {
        broadcast use layout_of_primitives;

    }
    if data.len() > core::mem::size_of::<usize>() {
        return Err(RlpError::LengthOverflow);
    }
    let ghost gdata = data@;
    let mut out: usize = 0;
    let mut i: usize = 0;
    proof {
        assert(gdata.take(0) =~= Seq::<u8>::empty());
        lemma2_to64();
    }
    while i < data.len()
        invariant
            i <= gdata.len(),
            data@ == gdata,
            8 * gdata.len() <= usize::BITS,
            out == spec_be_len(gdata.take(i as int)),
            out < pow2(8 * i as nat),
        decreases gdata.len() - i,
    {
        let byte = data[i];
        proof {
            lemma2_to64();
            lemma_pow2_adds(8 * i as nat, 8);
            if 8 * (i + 1) < usize::BITS {
                lemma_pow2_strictly_increases(8 * (i + 1) as nat, usize::BITS as nat);
            }
            unsigned_int_max_values();
            assert(out * 256 + byte < pow2(8 * (i + 1) as nat));
            assert(pow2(8 * (i + 1) as nat) <= pow2(usize::BITS as nat));
            assert(gdata.take(i + 1).drop_last() =~= gdata.take(i as int));
            assert(gdata.take(i + 1).last() == byte);
        }
        out = out * 256 + (byte as usize);
        i = i + 1;
    }
    proof {
        assert(gdata.take(gdata.len() as int) =~= gdata);
    }
    Ok(out)
}

/// Decodes one item from the front of `data` and returns it together with
/// the unconsumed remainder of the slice.
pub fn parse_rlp<'a>(data: &'a [u8]) -> (r: Result<(Parsed, &'a [u8]), RlpError>)
    ensures
        match r {
            Ok(pr) => spec_parse_item(data@) matches Ok(sp) && pr.0@ == sp.0 && pr.1@
                == data@.subrange(sp.1 as int, data@.len() as int),
            Err(e) => spec_parse_item(data@) == Err::<(ParsedView, nat), RlpError>(e),
        },
    decreases data@.len(), 0int,
{
    if data.len() == 0 {
        return Err(RlpError::EmptyInput);
    }
    let tag = data[0];
    if tag <= 0x7f {
        let bytes = slice_to_vec(slice_subrange(data, 0, 1));
        let rest = slice_subrange(data, 1, data.len());
        Ok((Parsed::Data(bytes), rest))
    } else if tag <= 0xb7 {
        let len = (tag - 0x80) as usize;
        if data.len() - 1 < len {
            return Err(RlpError::TruncatedInput);
        }
        let bytes = slice_to_vec(slice_subrange(data, 1, 1 + len));
        let rest = slice_subrange(data, 1 + len, data.len());
        Ok((Parsed::Data(bytes), rest))
    } else if tag <= 0xbf {
        let lenlen = (tag - 0xb7) as usize;
        if data.len() - 1 < lenlen {
            return Err(RlpError::TruncatedInput);
        }
        let len = match var_len_be_to_usize(slice_subrange(data, 1, 1 + lenlen)) {
            Ok(n) => n,
            Err(e) => {
                return Err(e);
            },
        };
        if data.len() - 1 - lenlen < len {
            return Err(RlpError::TruncatedInput);
        }
        let bytes = slice_to_vec(slice_subrange(data, 1 + lenlen, 1 + lenlen + len));
        let rest = slice_subrange(data, 1 + lenlen + len, data.len());
        Ok((Parsed::Data(bytes), rest))
    } else if tag <= 0xf7 {
        let len = (tag - 0xc0) as usize;
        if data.len() - 1 < len {
            return Err(RlpError::TruncatedInput);
        }
        let items = match parse_rlp_list_internal(slice_subrange(data, 1, 1 + len)) {
            Ok(v) => v,
            Err(e) => {
                return Err(e);
            },
        };
        let rest = slice_subrange(data, 1 + len, data.len());
        Ok((Parsed::List(items), rest))
    } else {
        let lenlen = (tag - 0xf7) as usize;
        if data.len() - 1 < lenlen {
            return Err(RlpError::TruncatedInput);
        }
        let len = match var_len_be_to_usize(slice_subrange(data, 1, 1 + lenlen)) {
            Ok(n) => n,
            Err(e) => {
                return Err(e);
            },
        };
        if data.len() - 1 - lenlen < len {
            return Err(RlpError::TruncatedInput);
        }
        let items = match parse_rlp_list_internal(
            slice_subrange(data, 1 + lenlen, 1 + lenlen + len),
        ) {
            Ok(v) => v,
            Err(e) => {
                return Err(e);
            },
        };
        let rest = slice_subrange(data, 1 + lenlen + len, data.len());
        Ok((Parsed::List(items), rest))
    }
}

/// Decodes items from the front of `data` until it is exhausted, appending
/// each to `items`.
fn parse_rlp_list_into(data: &[u8], items: &mut Vec<Parsed>) -> (r: Result<(), RlpError>)
    ensures
        match r {
            Ok(()) => spec_parse_list(data@) matches Ok(vs) && view_of_seq(final(items)@)
                == view_of_seq(old(items)@) + vs,
            Err(e) => spec_parse_list(data@) == Err::<Seq<ParsedView>, RlpError>(e),
        },
    decreases data@.len(), 1int,
{
    if data.len() == 0 {
        proof {
            assert(view_of_seq(items@) =~= view_of_seq(items@) + Seq::<ParsedView>::empty());
        }
        return Ok(());
    }
    let (item, rest) = match parse_rlp(data) {
        Ok(p) => p,
        Err(e) => {
            return Err(e);
        },
    };
    let ghost pre = items@;
    let ghost v = item@;
    items.push(item);
    proof {
        lemma_view_of_seq_index(pre);
        lemma_view_of_seq_index(pre.push(item));
        assert(view_of_seq(items@) =~= view_of_seq(pre) + seq![v]);
    }
    match parse_rlp_list_into(rest, items) {
        Ok(()) => {
            proof {
                let vs_rest = spec_parse_list(rest@)->Ok_0;
                assert(view_of_seq(items@) =~= view_of_seq(pre) + (seq![v] + vs_rest));
            }
            Ok(())
        },
        Err(e) => Err(e),
    }
}

/// Decodes the concatenated encodings in `data` into the items of one list.
/// An empty payload yields an empty list.
pub fn parse_rlp_list_internal(data: &[u8]) -> (r: Result<Vec<Parsed>, RlpError>)
    ensures
        match r {
            Ok(items) => spec_parse_list(data@) matches Ok(vs) && view_of_seq(items@) == vs,
            Err(e) => spec_parse_list(data@) == Err::<Seq<ParsedView>, RlpError>(e),
        },
    decreases data@.len(), 2int,
{
    let mut items: Vec<Parsed> = Vec::new();
    match parse_rlp_list_into(data, &mut items) {
        Ok(()) => {
            proof {
                if spec_parse_list(data@) is Ok {
                    assert(view_of_seq(items@) =~= spec_parse_list(data@)->Ok_0);
                }
            }
            Ok(items)
        },
        Err(e) => Err(e),
    }
}

/// Law: a one-byte slice holding a value below `0x80` decodes to that byte
/// as an atomic item, consuming the whole slice (so the remainder is empty).
pub proof fn lemma_parse_single_byte(data: Seq<u8>)
    requires
        data.len() == 1,
        data[0] <= 0x7f,
    ensures
        spec_parse_item(data) == Ok::<_, RlpError>((ParsedView::Bytes(seq![data[0]]), 1nat)),
{
    assert(data.subrange(0, 1) =~= seq![data[0]]);
}

/// Law: a short-string encoding `[0x80 + L] ++ s`, with `L = s.len()` at
/// most 55, decodes to the byte string `s`, consuming the whole encoding.
pub proof fn lemma_parse_short_string(s: Seq<u8>)
    requires
        s.len() <= 55,
    ensures
        spec_parse_item(seq![(0x80 + s.len()) as u8] + s) == Ok::<_, RlpError>((
            ParsedView::Bytes(s),
            (1 + s.len()) as nat,
        )),
{
    let data = seq![(0x80 + s.len()) as u8] + s;
    assert(data[0] == (0x80 + s.len()) as u8);
    assert(data.subrange(1, 1 + s.len() as int) =~= s);
}

/// Law: a long-string encoding `[0xb7 + K] ++ lenbytes ++ s`, where
/// `lenbytes` is the `K`-byte big-endian encoding of `s.len()` and the
/// length fits the platform word, decodes to the byte string `s`, consuming
/// the whole encoding.
pub proof fn lemma_parse_long_string(lenbytes: Seq<u8>, s: Seq<u8>)
    requires
        1 <= lenbytes.len() <= 8,
        8 * lenbytes.len() <= usize::BITS,
        spec_be_len(lenbytes) == s.len(),
        56 <= s.len(),
    ensures
        spec_parse_item(seq![(0xb7 + lenbytes.len()) as u8] + lenbytes + s) == Ok::<_, RlpError>((
            ParsedView::Bytes(s),
            (1 + lenbytes.len() + s.len()) as nat,
        )),
{
    let k = lenbytes.len() as int;
    let data = seq![(0xb7 + lenbytes.len()) as u8] + lenbytes + s;
    assert(data[0] == (0xb7 + lenbytes.len()) as u8);
    assert(data.subrange(1, 1 + k) =~= lenbytes);
    assert(data.subrange(1 + k, 1 + k + s.len() as int) =~= s);
}

/// Decodes the first item of `data`; bytes after that item are ignored.
pub fn decode(data: &[u8]) -> (r: Result<Parsed, RlpError>)
    ensures
        match r {
            Ok(item) => spec_parse_item(data@) matches Ok(sp) && item@ == sp.0,
            Err(e) => spec_parse_item(data@) == Err::<(ParsedView, nat), RlpError>(e),
        },
{
    match parse_rlp(data) {
        Ok((item, _rest)) => Ok(item),
        Err(e) => Err(e),
    }
}

} // verus!
