//! The renderer: turns a decoded tree into text. Atomic items become quoted
//! lowercase hexadecimal literals (`"0x…"`); lists become bracketed,
//! comma-separated sequences of their children's renderings, in order.

use vstd::prelude::*;
use vstd::string::StringExecFns;

use crate::item::Parsed;
use crate::item::ParsedView;
use crate::item::view_of_seq;
use crate::item::lemma_view_of_seq_index;

verus! {

/// The sixteen lowercase hexadecimal digit characters, by value.
pub open spec fn spec_hex_digit(n: u8) -> char
    recommends
        n < 16,
{
    seq!['0', '1', '2', '3', '4', '5', '6', '7', '8', '9', 'a', 'b', 'c', 'd', 'e', 'f'][n as int]
}

/// Lowercase hexadecimal text of a byte string: two digits per byte, most
/// significant nibble first.
pub open spec fn spec_hex(bytes: Seq<u8>) -> Seq<char>
    decreases bytes.len(),
{
    if bytes.len() == 0 {
        Seq::empty()
    } else {
        spec_hex(bytes.drop_last()) + seq![
            spec_hex_digit(bytes.last() / 16),
            spec_hex_digit(bytes.last() % 16),
        ]
    }
}

/// A quoted hexadecimal literal: `0x` and the digits, between double quotes.
pub open spec fn spec_quoted_hex(bytes: Seq<u8>) -> Seq<char> {
    seq!['"', '0', 'x'] + spec_hex(bytes) + seq!['"']
}

/// The rendered text of a decoded tree.
pub open spec fn spec_render(v: ParsedView) -> Seq<char>
    decreases v,
{
    match v {
        ParsedView::Bytes(bytes) => spec_quoted_hex(bytes),
        ParsedView::List(items) => seq!['['] + spec_render_items(items) + seq![']'],
    }
}

/// The children's renderings joined by `", "`.
pub open spec fn spec_render_items(items: Seq<ParsedView>) -> Seq<char>
    decreases items,
{
    if items.len() == 0 {
        Seq::empty()
    } else if items.len() == 1 {
        spec_render(items[0])
    } else {
        spec_render(items[0]) + seq![',', ' '] + spec_render_items(
            items.subrange(1, items.len() as int),
        )
    }
}

/// Relies on hex::encode: it returns exactly two lowercase hexadecimal
/// digits per input byte, most significant nibble first.
#[verifier::external_body]
fn hex_encode(bytes: &[u8]) -> (out: String)
    ensures
        out@ == spec_hex(bytes@),
{
    hex::encode(bytes)
}

/// Renders a byte string as a quoted hexadecimal literal: `"0x"`, the
/// digits, `"`.
pub fn fmt_hex(value: &[u8]) -> (out: String)
    ensures
        out@ == spec_quoted_hex(value@),
{
    let mut out = "\"0x".to_owned();
    proof {
        reveal_strlit("\"0x");
        assert(out@ =~= seq!['"', '0', 'x']);
    }
    let digits = hex_encode(value);
    out.append(digits.as_str());
    out.append("\"");
    proof {
        reveal_strlit("\"");
        assert(("\"")@ =~= seq!['"']);
        assert(out@ =~= spec_quoted_hex(value@));
    }
    out
}

/// The rendered text of a sequence of byte strings: their quoted
/// hexadecimal literals in square brackets, joined by `", "`.
pub open spec fn spec_hex_list(items: Seq<Seq<u8>>) -> Seq<char> {
    seq!['['] + spec_hex_list_items(items) + seq![']']
}

/// The quoted hexadecimal literals joined by `", "`.
pub open spec fn spec_hex_list_items(items: Seq<Seq<u8>>) -> Seq<char>
    decreases items.len(),
{
    if items.len() == 0 {
        Seq::empty()
    } else if items.len() == 1 {
        spec_quoted_hex(items[0])
    } else {
        spec_quoted_hex(items[0]) + seq![',', ' '] + spec_hex_list_items(
            items.subrange(1, items.len() as int),
        )
    }
}

/// Renders the byte strings from index `i` on, joined by `", "`.
fn fmt_hex_vec_from(values: &Vec<Vec<u8>>, i: usize) -> (out: String)
    requires
        i <= values@.len(),
    ensures
        out@ == spec_hex_list_items(
            values@.map_values(|v: Vec<u8>| v@).subrange(i as int, values@.len() as int),
        ),
    decreases values@.len() - i,
{
    let ghost mapped = values@.map_values(|v: Vec<u8>| v@);
    if i == values.len() {
        proof {
            assert(mapped.subrange(i as int, values@.len() as int) =~= Seq::<Seq<u8>>::empty());
        }
        String::new()
    } else {
        let ghost sub = mapped.subrange(i as int, values@.len() as int);
        proof {
            assert(sub[0] == values@[i as int]@);
        }
        let mut out = fmt_hex(values[i].as_slice());
        if i + 1 < values.len() {
            out.append(", ");
            let rest = fmt_hex_vec_from(values, i + 1);
            out.append(rest.as_str());
            proof {
                reveal_strlit(", ");
                assert((", ")@ =~= seq![',', ' ']);
                assert(sub.subrange(1, sub.len() as int) =~= mapped.subrange(
                    i + 1,
                    values@.len() as int,
                ));
                assert(out@ =~= spec_hex_list_items(sub));
            }
        } else {
            proof {
                assert(sub.len() == 1);
                assert(out@ =~= spec_hex_list_items(sub));
            }
        }
        out
    }
}

/// Renders a list of byte strings as a bracketed, comma-separated sequence
/// of quoted hexadecimal literals.
pub fn fmt_hex_vec(values: &Vec<Vec<u8>>) -> (out: String)
    ensures
        out@ == spec_hex_list(values@.map_values(|v: Vec<u8>| v@)),
{
    let ghost mapped = values@.map_values(|v: Vec<u8>| v@);
    let mut out = "[".to_owned();
    proof {
        reveal_strlit("[");
        assert(out@ =~= seq!['[']);
    }
    let inner = fmt_hex_vec_from(values, 0);
    out.append(inner.as_str());
    out.append("]");
    proof {
        reveal_strlit("]");
        assert(("]")@ =~= seq![']']);
        assert(mapped.subrange(0, values@.len() as int) =~= mapped);
        assert(out@ =~= spec_hex_list(mapped));
    }
    out
}

/// Renders the children of `items` from index `i` on, joined by `", "`.
fn render_items_from(items: &Vec<Parsed>, i: usize) -> (out: String)
    requires
        i <= items@.len(),
    ensures
        out@ == spec_render_items(
            view_of_seq(items@).subrange(i as int, items@.len() as int),
        ),
    decreases *items, items@.len() - i,
{
    proof {
        lemma_view_of_seq_index(items@);
    }
    let ghost views = view_of_seq(items@);
    if i == items.len() {
        proof {
            assert(views.subrange(i as int, items@.len() as int) =~= Seq::<ParsedView>::empty());
        }
        String::new()
    } else {
        let ghost sub = views.subrange(i as int, items@.len() as int);
        proof {
            assert(sub[0] == view_of_seq(items@)[i as int]);
        }
        let mut out = items[i].render();
        if i + 1 < items.len() {
            out.append(", ");
            let rest = render_items_from(items, i + 1);
            out.append(rest.as_str());
            proof {
                reveal_strlit(", ");
                assert((", ")@ =~= seq![',', ' ']);
                assert(sub.subrange(1, sub.len() as int) =~= views.subrange(
                    i + 1,
                    items@.len() as int,
                ));
                assert(out@ =~= spec_render_items(sub));
            }
        } else {
            proof {
                assert(sub.len() == 1);
                assert(out@ =~= spec_render_items(sub));
            }
        }
        out
    }
}

impl Parsed {
    /// Renders the tree as nested hexadecimal literals. The text is a pure
    /// function of the tree: rendering the same tree again yields the same
    /// text.
    pub fn render(&self) -> (out: String)
        ensures
            out@ == spec_render(self@),
        decreases *self, 0int,
    {
        match self {
            Parsed::Data(bytes) => fmt_hex(bytes.as_slice()),
            Parsed::List(items) => {
                let mut out = "[".to_owned();
                proof {
                    reveal_strlit("[");
                    assert(out@ =~= seq!['[']);
                }
                let inner = render_items_from(items, 0);
                out.append(inner.as_str());
                out.append("]");
                proof {
                    reveal_strlit("]");
                    assert(("]")@ =~= seq![']']);
                    lemma_view_of_seq_index(items@);
                    assert(view_of_seq(items@).subrange(0, items@.len() as int) =~= view_of_seq(
                        items@,
                    ));
                    assert(out@ =~= spec_render(self@));
                }
                out
            },
        }
    }
}

} // verus!
