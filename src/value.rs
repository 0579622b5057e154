//! The generic attribute tree: values, objects and their mathematical view.
use vstd::prelude::*;

verus! {

broadcast use vstd::std_specs::vec::group_vec_axioms, vstd::seq::group_seq_axioms;

/// One attribute: its key and its value.
pub type Attr = (String, GMLValue);

/// An object: attributes in the order in which they appear, keys may repeat.
#[derive(Debug, PartialEq, Eq)]
pub struct GMLObject {
    pub pairs: Vec<Attr>,
}

/// The value of an attribute.
#[derive(Debug, PartialEq, Eq)]
pub enum GMLValue {
    GMLString(String),
    GMLInt(i64),
    GMLObject(Box<GMLObject>),
}

/// What a value means: text, an integer of any size, or an ordered list
/// of keyed values.
pub enum ValueView {
    Text(Seq<char>),
    Int(int),
    Object(Seq<(Seq<char>, ValueView)>),
}

/// The meaning of a value.
pub open spec fn value_view(v: GMLValue) -> ValueView
    decreases v,
{
    match v {
        GMLValue::GMLString(s) => ValueView::Text(s@),
        GMLValue::GMLInt(n) => ValueView::Int(n as int),
        GMLValue::GMLObject(o) => ValueView::Object(pairs_view(o.pairs@)),
    }
}

/// The meaning of a list of attributes, one entry for each.
pub open spec fn pairs_view(ps: Seq<Attr>) -> Seq<(Seq<char>, ValueView)>
    decreases ps,
{
    if ps.len() == 0 {
        Seq::empty()
    } else {
        pairs_view(ps.drop_last()).push((ps.last().0@, value_view(ps.last().1)))
    }
}

} // verus!
