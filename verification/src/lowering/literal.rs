//! Lowering of literals: a literal of the script becomes a constant of the
//! virtual machine.
use vstd::prelude::*;
use crate::target::constant::mapping_view;
use crate::ir::literal::entries_view;
use crate::ir::literal::items_view;
use crate::ir::literal::Literal;
use crate::ir::literal::LiteralView;
use crate::target::constant::elements_view;
use crate::target::constant::Constant;
use crate::target::constant::ConstantView;

verus! {

/// The constant that stands for `literal` in the virtual machine: a boolean
/// for a boolean, a real with the same bits for a number, the same text for a
/// string, a sequence of the same elements in the same order for a list, and
/// a mapping with the same keys for a mapping.
pub open spec fn literal_constant(literal: LiteralView) -> ConstantView
    decreases literal,
{
    match literal {
        LiteralView::Bool(b) => ConstantView::Boolean(b),
        LiteralView::Number(bits) => ConstantView::Real(bits),
        LiteralView::String(text) => ConstantView::Text(text),
        LiteralView::Mapping(entries) => ConstantView::Mapping(
            Map::new(
                |key: Seq<char>| entries.contains_key(key),
                |key: Seq<char>|
                    if entries.contains_key(key) {
                        literal_constant(entries[key])
                    } else {
                        ConstantView::Boolean(false)
                    },
            ),
        ),
        LiteralView::List(items) => ConstantView::Sequence(
            Seq::new(
                items.len(),
                |i: int|
                    if 0 <= i < items.len() {
                        literal_constant(items[i])
                    } else {
                        ConstantView::Boolean(false)
                    },
            ),
        ),
    }
}

/// The constants of the values of a mapping, under the same keys.
pub open spec fn mapping_constant(entries: Map<Seq<char>, LiteralView>) -> Map<
    Seq<char>,
    ConstantView,
> {
    literal_constant(LiteralView::Mapping(entries))->Mapping_0
}

/// The constants of the elements of a list, in the same order.
pub open spec fn list_constant(items: Seq<LiteralView>) -> Seq<ConstantView> {
    literal_constant(LiteralView::List(items))->Sequence_0
}

/// The literal that `constant` stands for: the way back from
/// [`literal_constant`].
pub open spec fn constant_literal(constant: ConstantView) -> LiteralView
    decreases constant,
{
    match constant {
        ConstantView::Boolean(b) => LiteralView::Bool(b),
        ConstantView::Real(bits) => LiteralView::Number(bits),
        ConstantView::Text(text) => LiteralView::String(text),
        ConstantView::Mapping(entries) => LiteralView::Mapping(
            Map::new(
                |key: Seq<char>| entries.contains_key(key),
                |key: Seq<char>|
                    if entries.contains_key(key) {
                        constant_literal(entries[key])
                    } else {
                        LiteralView::Bool(false)
                    },
            ),
        ),
        ConstantView::Sequence(elements) => LiteralView::List(
            Seq::new(
                elements.len(),
                |i: int|
                    if 0 <= i < elements.len() {
                        constant_literal(elements[i])
                    } else {
                        LiteralView::Bool(false)
                    },
            ),
        ),
    }
}

/// Lowering a literal loses nothing: the literal can be read back from its
/// constant, bit for bit for a number, character for character for a string,
/// with the same elements in the same order for a list and the same value
/// under each key for a mapping.
pub proof fn lemma_literal_round_trip(literal: LiteralView)
    ensures
        constant_literal(literal_constant(literal)) == literal,
    decreases literal,
{
    match literal {
        LiteralView::Mapping(entries) => {
            let lowered = literal_constant(literal)->Mapping_0;
            let back = constant_literal(literal_constant(literal))->Mapping_0;
            assert forall|key: Seq<char>| entries.contains_key(key) implies #[trigger] back[key]
                == entries[key] by {
                lemma_literal_round_trip(entries[key]);
            }
            assert(back =~= entries);
        },
        LiteralView::List(items) => {
            let back = constant_literal(literal_constant(literal))->List_0;
            assert forall|i: int| 0 <= i < items.len() implies #[trigger] back[i] == items[i] by {
                lemma_literal_round_trip(items[i]);
            }
            assert(back =~= items);
        },
        _ => {},
    }
}

/// Two literals with the same constant are the same literal.
pub proof fn lemma_literal_constant_injective(first: LiteralView, second: LiteralView)
    requires
        literal_constant(first) == literal_constant(second),
    ensures
        first == second,
{
    lemma_literal_round_trip(first);
    lemma_literal_round_trip(second);
}

impl Literal {
    /// Lowers the literal to the constant that stands for it in the virtual
    /// machine.
    pub fn to_constant(&self) -> (constant: Constant)
        ensures
            constant@ == literal_constant(self@),
        decreases self,
    {
        match self {
            Literal::Bool(b) => Constant::Boolean(*b),
            Literal::Number(bits) => Constant::Real(*bits),
            Literal::String(text) => Constant::Text(text.clone()),
            Literal::Mapping(entries) => {
                let mut lowered: Vec<(String, Constant)> = Vec::new();
                let mut i: usize = 0;
                while i < entries.len()
                    invariant
                        i <= entries.len(),
                        forall|k: int| 0 <= k < entries@.len() ==> decreases_to!(self => entries@[k].1),
                        mapping_view(lowered@) == mapping_constant(
                            entries_view(entries@.take(i as int)),
                        ),
                    decreases entries.len() - i,
                {
                    let ghost before = lowered@;
                    let value = entries[i].1.to_constant();
                    lowered.push((entries[i].0.clone(), value));
                    proof {
                        assert(lowered@.drop_last() =~= before);
                        assert(entries@.take(i + 1).drop_last() =~= entries@.take(i as int));
                        assert(entries@.take(i + 1).last() == entries@[i as int]);
                        assert(mapping_view(lowered@) =~= mapping_constant(
                            entries_view(entries@.take(i + 1)),
                        ));
                    }
                    i = i + 1;
                }
                proof {
                    assert(entries@.take(i as int) =~= entries@);
                }
                Constant::Mapping(lowered)
            },
            Literal::List(items) => {
                let mut lowered: Vec<Constant> = Vec::new();
                let mut i: usize = 0;
                while i < items.len()
                    invariant
                        i <= items.len(),
                        forall|k: int| 0 <= k < items@.len() ==> decreases_to!(self => items@[k]),
                        lowered@.len() == i,
                        forall|k: int| 0 <= k < i ==> (#[trigger] lowered@[k])@ == literal_constant(items@[k]@),
                    decreases items.len() - i,
                {
                    let element = items[i].to_constant();
                    lowered.push(element);
                    i = i + 1;
                }
                proof {
                    assert(elements_view(lowered@) =~= list_constant(items_view(items@)));
                }
                Constant::Sequence(lowered)
            },
        }
    }
}

} // verus!
