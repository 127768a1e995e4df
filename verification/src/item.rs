//! The decoded tree and the decoder's error values.

use vstd::prelude::*;

verus! {

/// Why a buffer failed to decode.
#[derive(Clone, Copy, Debug, PartialEq, Eq, Structural)]
pub enum RlpError {
    /// The slice handed to the decoder was empty: no tag byte is available.
    EmptyInput,
    /// A declared length (payload or length-of-length field) extends past
    /// the end of the available slice.
    TruncatedInput,
    /// A length-of-length field needs more bits than the native unsigned
    /// integer width of this platform.
    LengthOverflow,
}

/// A decoded tree node: an atomic byte string, or an ordered list of
/// sub-items. `Data` owns a copy of the bytes it was decoded from.
#[derive(Debug, PartialEq, Eq)]
pub enum Parsed {
    Data(Vec<u8>),
    List(Vec<Parsed>),
}

/// The mathematical shape of a decoded tree.
#[verifier::ext_equal]
pub enum ParsedView {
    Bytes(Seq<u8>),
    List(Seq<ParsedView>),
}

pub open spec fn view_of(p: Parsed) -> ParsedView
    decreases p,
{
    match p {
        Parsed::Data(bytes) => ParsedView::Bytes(bytes@),
        Parsed::List(items) => ParsedView::List(view_of_seq(items@)),
    }
}

pub open spec fn view_of_seq(s: Seq<Parsed>) -> Seq<ParsedView>
    decreases s,
{
    if s.len() == 0 {
        Seq::empty()
    } else {
        seq![view_of(s[0])] + view_of_seq(s.subrange(1, s.len() as int))
    }
}

impl View for Parsed {
    type V = ParsedView;

    open spec fn view(&self) -> ParsedView {
        view_of(*self)
    }
}

/// `view_of_seq` maps `view_of` over the sequence, element by element.
pub proof fn lemma_view_of_seq_index(s: Seq<Parsed>)
    ensures
        view_of_seq(s).len() == s.len(),
        forall|i: int| 0 <= i < s.len() ==> view_of_seq(s)[i] == view_of(s[i]),
    decreases s.len(),
{
    if s.len() > 0 {
        lemma_view_of_seq_index(s.subrange(1, s.len() as int));
    }
}

} // verus!
