//! The closed value type for span and log-event attributes: text, signed
//! and unsigned integers, and booleans, with a spec-level view for
//! contracts.

use vstd::prelude::*;

verus! {

/// An attribute value as stored at run time.
#[derive(Debug, Clone, PartialEq, Eq)]
pub enum AttrValue {
    Text(Vec<u8>),
    Int(i64),
    Uint(u64),
    Flag(bool),
}

/// An attribute value as contracts see it.
pub enum AttrView {
    Text(Seq<u8>),
    Int(i64),
    Uint(u64),
    Flag(bool),
}

impl View for AttrValue {
    type V = AttrView;

    open spec fn view(&self) -> AttrView {
        match self {
            AttrValue::Text(v) => AttrView::Text(v@),
            AttrValue::Int(i) => AttrView::Int(*i),
            AttrValue::Uint(u) => AttrView::Uint(*u),
            AttrValue::Flag(b) => AttrView::Flag(*b),
        }
    }
}

/// The pairwise views of an attribute list.
pub open spec fn attrs_view(s: Seq<(Vec<u8>, AttrValue)>) -> Seq<(Seq<u8>, AttrView)> {
    s.map_values(|e: (Vec<u8>, AttrValue)| (e.0@, e.1@))
}

} // verus!
