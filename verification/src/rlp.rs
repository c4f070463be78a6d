//! One level of RLP: an item is a string of bytes or a list of items.

use vstd::prelude::*;

verus! {

/// An RLP item, opened by one level: the payload of a string, or the items
/// of a list, each still encoded.
#[derive(Debug, Clone, PartialEq, Eq)]
pub enum RlpItem {
    /// The payload of a string.
    String(Vec<u8>),
    /// The items of a list, each in its encoding.
    List(Vec<Vec<u8>>),
}

/// An RLP item, opened by one level, as sequences.
pub enum RlpView {
    String(Seq<u8>),
    List(Seq<Seq<u8>>),
}

impl View for RlpItem {
    type V = RlpView;

    open spec fn view(&self) -> RlpView {
        match self {
            RlpItem::String(payload) => RlpView::String(payload@),
            RlpItem::List(items) => RlpView::List(items@.map_values(|item: Vec<u8>| item@)),
        }
    }
}

/// The first RLP item of `bytes`, opened by one level, and how many bytes
/// stand behind it; `None` where `bytes` do not start with an item.
pub uninterp spec fn rlp_first(bytes: Seq<u8>) -> Option<(RlpView, nat)>;

/// The RLP item that `bytes` are the encoding of, opened by one level; `None`
/// where `bytes` are not one item and nothing more.
pub open spec fn rlp_item(bytes: Seq<u8>) -> Option<RlpView> {
    match rlp_first(bytes) {
        Some((item, rest)) => if rest == 0 {
            Some(item)
        } else {
            None
        },
        None => None,
    }
}

/// What the wrapper hands out, as sequences.
pub open spec fn first_view(r: Option<(RlpItem, usize)>) -> Option<(RlpView, nat)> {
    match r {
        Some((item, rest)) => Some((item@, rest as nat)),
        None => None,
    }
}

/// `Header::decode_raw` of `alloy_rlp`: the first item of `bytes`, as the
/// payload of a string or as the encoded items of a list, with the number of
/// bytes that are left behind it. Bytes that do not start with a well-formed
/// item give `None`.
#[verifier::external_body]
fn decode_first(bytes: &[u8]) -> (r: Option<(RlpItem, usize)>)
    ensures
        first_view(r) == rlp_first(bytes@),
{
    let mut buf = bytes;
    match alloy_rlp::Header::decode_raw(&mut buf) {
        Ok(alloy_rlp::PayloadView::String(payload)) => Some(
            (RlpItem::String(payload.to_vec()), buf.len()),
        ),
        Ok(alloy_rlp::PayloadView::List(items)) => Some(
            (RlpItem::List(items.iter().map(|item| item.to_vec()).collect()), buf.len()),
        ),
        Err(_) => None,
    }
}

/// The RLP item that `bytes` are the encoding of, opened by one level.
pub fn decode_item(bytes: &[u8]) -> (r: Option<RlpItem>)
    ensures
        match r {
            Some(item) => rlp_item(bytes@) == Some(item@),
            None => rlp_item(bytes@) is None,
        },
{
    match decode_first(bytes) {
        Some((item, rest)) => {
            if rest == 0 {
                Some(item)
            } else {
                None
            }
        },
        None => None,
    }
}

} // verus!
