//! Constants in the representation of the virtual machine.
use vstd::prelude::*;

verus! {

/// A constant operand of the virtual machine. Two constants are `==` if they
/// are written down alike: reals with the same bits, mappings with the same
/// entries in the same order.
#[derive(Debug, PartialEq, Eq)]
pub enum Constant {
    Boolean(bool),
    /// A floating-point number, held as its IEEE 754 bit pattern.
    Real(u64),
    Text(String),
    /// The elements of a sequence, in order.
    Sequence(Vec<Constant>),
    /// The entries of a keyed mapping. Where a key occurs more than once its
    /// last entry counts.
    Mapping(Vec<(String, Constant)>),
}

/// The mathematical value of a [`Constant`].
pub enum ConstantView {
    Boolean(bool),
    Real(u64),
    Text(Seq<char>),
    Sequence(Seq<ConstantView>),
    Mapping(Map<Seq<char>, ConstantView>),
}

/// The mapping that a list of entries stands for: each entry is written into
/// the mapping in turn, a later one replacing an earlier one of the same key.
pub open spec fn mapping_view(entries: Seq<(String, Constant)>) -> Map<Seq<char>, ConstantView>
    decreases entries,
{
    if entries.len() == 0 {
        Map::empty()
    } else {
        mapping_view(entries.drop_last()).insert(entries.last().0@, entries.last().1@)
    }
}

/// The values of a list of constants, element by element.
pub open spec fn elements_view(elements: Seq<Constant>) -> Seq<ConstantView>
    decreases elements,
{
    Seq::new(
        elements.len(),
        |i: int|
            if 0 <= i < elements.len() {
                elements[i]@
            } else {
                ConstantView::Boolean(false)
            },
    )
}

impl View for Constant {
    type V = ConstantView;

    open spec fn view(&self) -> ConstantView
        decreases self,
    {
        match self {
            Constant::Boolean(b) => ConstantView::Boolean(*b),
            Constant::Real(bits) => ConstantView::Real(*bits),
            Constant::Text(text) => ConstantView::Text(text@),
            Constant::Sequence(elements) => ConstantView::Sequence(elements_view(elements@)),
            Constant::Mapping(entries) => ConstantView::Mapping(mapping_view(entries@)),
        }
    }
}

} // verus!
