//! Compile-time constants of a script.
use vstd::prelude::*;

verus! {

/// A constant written in a script.
#[derive(Debug)]
pub enum Literal {
    Bool(bool),
    /// A 64-bit floating-point number, held as its IEEE 754 bit pattern.
    Number(u64),
    String(String),
    /// A mapping from text keys to literals, held as a list of entries. Where
    /// a key occurs more than once its last entry counts, so that keys are
    /// unique in the mapping the list stands for.
    Mapping(Vec<(String, Literal)>),
    List(Vec<Literal>),
}

/// The mathematical value of a [`Literal`].
pub enum LiteralView {
    Bool(bool),
    Number(u64),
    String(Seq<char>),
    Mapping(Map<Seq<char>, LiteralView>),
    List(Seq<LiteralView>),
}

/// The mapping that a list of entries stands for: each entry is written into
/// the mapping in turn, a later one replacing an earlier one of the same key.
pub open spec fn entries_view(entries: Seq<(String, Literal)>) -> Map<Seq<char>, LiteralView>
    decreases entries,
{
    if entries.len() == 0 {
        Map::empty()
    } else {
        entries_view(entries.drop_last()).insert(entries.last().0@, entries.last().1@)
    }
}

/// The values of a list of literals, element by element.
pub open spec fn items_view(items: Seq<Literal>) -> Seq<LiteralView>
    decreases items,
{
    Seq::new(
        items.len(),
        |i: int|
            if 0 <= i < items.len() {
                items[i]@
            } else {
                LiteralView::Bool(false)
            },
    )
}

impl View for Literal {
    type V = LiteralView;

    open spec fn view(&self) -> LiteralView
        decreases self,
    {
        match self {
            Literal::Bool(b) => LiteralView::Bool(*b),
            Literal::Number(bits) => LiteralView::Number(*bits),
            Literal::String(text) => LiteralView::String(text@),
            Literal::Mapping(entries) => LiteralView::Mapping(entries_view(entries@)),
            Literal::List(items) => LiteralView::List(items_view(items@)),
        }
    }
}

/// Whether `bits` is the bit pattern of a NaN: the exponent is all ones and
/// the fraction is not zero.
pub open spec fn is_nan(bits: u64) -> bool {
    (bits & 0x7fff_ffff_ffff_ffff) > 0x7ff0_0000_0000_0000
}

/// Whether `bits` is the bit pattern of a zero, positive or negative.
pub open spec fn is_zero(bits: u64) -> bool {
    (bits & 0x7fff_ffff_ffff_ffff) == 0
}

/// Whether two numbers, given by their bit patterns, are equal as
/// floating-point numbers: a NaN equals nothing, the two zeros equal each
/// other, and any other number equals only itself.
pub open spec fn number_eq(first: u64, second: u64) -> bool {
    &&& !is_nan(first)
    &&& !is_nan(second)
    &&& (first == second || (is_zero(first) && is_zero(second)))
}

/// Whether two literals are equal: they are of the same kind, and equal
/// booleans, equal numbers by [`number_eq`], the same text, lists of the same
/// length with equal elements at each position, or mappings with the same
/// keys and equal values under each key.
pub open spec fn literal_eq(first: LiteralView, second: LiteralView) -> bool
    decreases first,
{
    match (first, second) {
        (LiteralView::Bool(a), LiteralView::Bool(b)) => a == b,
        (LiteralView::Number(a), LiteralView::Number(b)) => number_eq(a, b),
        (LiteralView::String(a), LiteralView::String(b)) => a == b,
        (LiteralView::Mapping(a), LiteralView::Mapping(b)) => {
            &&& forall|key: Seq<char>| #[trigger]
                a.contains_key(key) ==> b.contains_key(key) && literal_eq(a[key], b[key])
            &&& forall|key: Seq<char>| #[trigger] b.contains_key(key) ==> a.contains_key(key)
        },
        (LiteralView::List(a), LiteralView::List(b)) => {
            &&& a.len() == b.len()
            &&& forall|i: int| 0 <= i < a.len() ==> literal_eq(a[i], b[i])
        },
        _ => false,
    }
}

/// Compares two numbers, given by their bit patterns, as floating-point
/// numbers.
pub fn numbers_equal(first: u64, second: u64) -> (equal: bool)
    ensures
        equal == number_eq(first, second),
{
    let first_magnitude: u64 = first & 0x7fff_ffff_ffff_ffff;
    let second_magnitude: u64 = second & 0x7fff_ffff_ffff_ffff;
    if first_magnitude > 0x7ff0_0000_0000_0000 || second_magnitude > 0x7ff0_0000_0000_0000 {
        false
    } else {
        first == second || (first_magnitude == 0 && second_magnitude == 0)
    }
}

/// A key is in the mapping of a list of entries exactly if an entry has it.
pub proof fn lemma_entries_keys(entries: Seq<(String, Literal)>, key: Seq<char>)
    ensures
        entries_view(entries).contains_key(key) <==> exists|i: int|
            0 <= i < entries.len() && (#[trigger] entries[i]).0@ == key,
    decreases entries.len(),
{
    if entries.len() > 0 {
        let shorter = entries.drop_last();
        lemma_entries_keys(shorter, key);
        assert(entries_view(entries) == entries_view(shorter).insert(
            entries.last().0@,
            entries.last().1@,
        ));
        if entries_view(entries).contains_key(key) {
            if entries.last().0@ == key {
                assert(entries[entries.len() - 1].0@ == key);
            } else {
                let i = choose|i: int| 0 <= i < shorter.len() && (#[trigger] shorter[i]).0@ == key;
                assert(entries[i].0@ == key);
            }
        } else {
            assert forall|i: int| 0 <= i < entries.len() implies (#[trigger] entries[i]).0@
                != key by {
                if i < shorter.len() {
                    assert(shorter[i].0@ != key);
                }
            }
        }
    }
}

/// The position of the entry that counts for `key`: the last one that has
/// the key.
fn find_entry(entries: &Vec<(String, Literal)>, key: &String) -> (position: Option<usize>)
    ensures
        match position {
            Some(i) => {
                &&& i < entries@.len()
                &&& entries_view(entries@).contains_key(key@)
                &&& entries_view(entries@)[key@] == entries@[i as int].1@
            },
            None => !entries_view(entries@).contains_key(key@),
        },
{
    let mut i: usize = entries.len();
    assert(entries@.take(i as int) =~= entries@);
    while i > 0
        invariant
            i <= entries.len(),
            entries_view(entries@).contains_key(key@) <==> entries_view(
                entries@.take(i as int),
            ).contains_key(key@),
            entries_view(entries@).contains_key(key@) ==> entries_view(entries@)[key@]
                == entries_view(entries@.take(i as int))[key@],
        decreases i,
    {
        i = i - 1;
        proof {
            let longer = entries@.take(i + 1);
            assert(longer.drop_last() =~= entries@.take(i as int));
            assert(longer.last() == entries@[i as int]);
            assert(entries_view(longer) == entries_view(longer.drop_last()).insert(
                longer.last().0@,
                longer.last().1@,
            ));
        }
        if entries[i].0 == *key {
            return Some(i);
        }
    }
    None
}

impl Literal {
    /// Compares two literals. Numbers compare as floating-point numbers do,
    /// and mappings compare by what stands under each key, whatever the order
    /// of their entries.
    pub fn eq(&self, other: &Literal) -> (equal: bool)
        ensures
            equal == literal_eq(self@, other@),
        decreases self,
    {
        match (self, other) {
            (Literal::Bool(a), Literal::Bool(b)) => *a == *b,
            (Literal::Number(a), Literal::Number(b)) => numbers_equal(*a, *b),
            (Literal::String(a), Literal::String(b)) => *a == *b,
            (Literal::Mapping(a), Literal::Mapping(b)) => {
                let ghost first = entries_view(a@);
                let ghost second = entries_view(b@);
                let mut i: usize = 0;
                while i < a.len()
                    invariant
                        i <= a.len(),
                        first == entries_view(a@),
                        second == entries_view(b@),
                        self@ is Mapping && self@->Mapping_0 == first,
                        other@ is Mapping && other@->Mapping_0 == second,
                        forall|k: int| 0 <= k < a@.len() ==> decreases_to!(self => a@[k].1),
                        forall|k: int|
                            0 <= k < i ==> second.contains_key((#[trigger] a@[k]).0@) && literal_eq(
                                first[a@[k].0@],
                                second[a@[k].0@],
                            ),
                    decreases a.len() - i,
                {
                    proof {
                        lemma_entries_keys(a@, a@[i as int].0@);
                        assert(first.contains_key(a@[i as int].0@));
                    }
                    match (find_entry(a, &a[i].0), find_entry(b, &a[i].0)) {
                        (Some(here), Some(there)) => {
                            if !a[here].1.eq(&b[there].1) {
                                return false;
                            }
                        },
                        _ => {
                            return false;
                        },
                    }
                    i = i + 1;
                }
                let mut j: usize = 0;
                while j < b.len()
                    invariant
                        j <= b.len(),
                        first == entries_view(a@),
                        second == entries_view(b@),
                        self@ is Mapping && self@->Mapping_0 == first,
                        other@ is Mapping && other@->Mapping_0 == second,
                        forall|k: int| 0 <= k < j ==> first.contains_key((#[trigger] b@[k]).0@),
                    decreases b.len() - j,
                {
                    proof {
                        lemma_entries_keys(b@, b@[j as int].0@);
                        assert(second.contains_key(b@[j as int].0@));
                    }
                    if find_entry(a, &b[j].0).is_none() {
                        return false;
                    }
                    j = j + 1;
                }
                proof {
                    assert(self@->Mapping_0 == first && other@->Mapping_0 == second);
                    assert forall|key: Seq<char>| first.contains_key(key) implies second.contains_key(
                        key,
                    ) && literal_eq(first[key], second[key]) by {
                        lemma_entries_keys(a@, key);
                        let k = choose|k: int| 0 <= k < a@.len() && (#[trigger] a@[k]).0@ == key;
                        assert(second.contains_key(a@[k].0@));
                    }
                    assert forall|key: Seq<char>| second.contains_key(key) implies first.contains_key(
                        key,
                    ) by {
                        lemma_entries_keys(b@, key);
                        let k = choose|k: int| 0 <= k < b@.len() && (#[trigger] b@[k]).0@ == key;
                        assert(first.contains_key(b@[k].0@));
                    }
                }
                true
            },
            (Literal::List(a), Literal::List(b)) => {
                proof {
                    assert(self@->List_0 == items_view(a@));
                    assert(other@->List_0 == items_view(b@));
                    assert(items_view(a@).len() == a@.len());
                    assert(items_view(b@).len() == b@.len());
                }
                if a.len() != b.len() {
                    return false;
                }
                let mut i: usize = 0;
                while i < a.len()
                    invariant
                        i <= a.len(),
                        a@.len() == b@.len(),
                        self@ is List && self@->List_0 == items_view(a@),
                        other@ is List && other@->List_0 == items_view(b@),
                        forall|k: int| 0 <= k < a@.len() ==> decreases_to!(self => a@[k]),
                        forall|k: int| 0 <= k < i ==> literal_eq((#[trigger] a@[k])@, b@[k]@),
                    decreases a.len() - i,
                {
                    if !a[i].eq(&b[i]) {
                        proof {
                            assert(self@->List_0[i as int] == a@[i as int]@);
                            assert(other@->List_0[i as int] == b@[i as int]@);
                        }
                        return false;
                    }
                    i = i + 1;
                }
                proof {
                    assert(self@->List_0.len() == other@->List_0.len());
                    assert forall|k: int| 0 <= k < self@->List_0.len() implies literal_eq(
                        self@->List_0[k],
                        other@->List_0[k],
                    ) by {
                        assert(literal_eq(a@[k]@, b@[k]@));
                    }
                }
                true
            },
            _ => false,
        }
    }
}

} // verus!
