//! The runtime environment that code is linked against: the intrinsic
//! operations that the host supplies, each known by its name.
use vstd::prelude::*;
use crate::ir::instruction::names_view;

verus! {

/// What linking needs to know of a runtime environment: the names of its
/// intrinsics. The handle of an intrinsic is its position among them.
#[derive(Debug)]
pub struct Environment {
    intrinsics: Vec<String>,
}

impl View for Environment {
    type V = Seq<Seq<char>>;

    closed spec fn view(&self) -> Seq<Seq<char>> {
        names_view(self.intrinsics@)
    }
}

/// The handle of the intrinsic of the name `name`: the first position at
/// which `intrinsics` holds the name.
pub open spec fn resolve_name(intrinsics: Seq<Seq<char>>, name: Seq<char>) -> Option<usize>
    decreases intrinsics.len(),
{
    if intrinsics.len() == 0 {
        None
    } else {
        match resolve_name(intrinsics.drop_last(), name) {
            Some(handle) => Some(handle),
            None => if intrinsics.last() == name {
                Some((intrinsics.len() - 1) as usize)
            } else {
                None
            },
        }
    }
}

/// A name resolves exactly if the environment holds it, and then to the
/// first position that holds it.
pub proof fn lemma_resolve_name(intrinsics: Seq<Seq<char>>, name: Seq<char>)
    requires
        intrinsics.len() <= usize::MAX,
    ensures
        match resolve_name(intrinsics, name) {
            Some(handle) => {
                &&& handle < intrinsics.len()
                &&& intrinsics[handle as int] == name
                &&& forall|i: int| 0 <= i < handle ==> intrinsics[i] != name
            },
            None => !intrinsics.contains(name),
        },
    decreases intrinsics.len(),
{
    if intrinsics.len() > 0 {
        let shorter = intrinsics.drop_last();
        lemma_resolve_name(shorter, name);
        assert(forall|i: int| 0 <= i < shorter.len() ==> shorter[i] == intrinsics[i]);
        if resolve_name(shorter, name) is None {
            assert forall|i: int| 0 <= i < shorter.len() implies intrinsics[i] != name by {
                assert(shorter.contains(shorter[i]));
            }
        }
    }
}

impl Environment {
    /// An environment without intrinsics.
    pub fn empty() -> (environment: Environment)
        ensures
            environment@ == Seq::<Seq<char>>::empty(),
    {
        let environment = Environment { intrinsics: Vec::new() };
        proof {
            assert(environment@ =~= Seq::<Seq<char>>::empty());
        }
        environment
    }

    /// An environment with the intrinsics of the names `intrinsics`.
    pub fn new(intrinsics: Vec<String>) -> (environment: Environment)
        ensures
            environment@ == names_view(intrinsics@),
    {
        Environment { intrinsics }
    }

    /// The handle of the intrinsic of the name `name`, if the environment has
    /// one of this name.
    pub fn resolve(&self, name: &String) -> (handle: Option<usize>)
        ensures
            handle == resolve_name(self@, name@),
    {
        let mut i: usize = 0;
        proof {
            assert(self@.take(0) =~= Seq::<Seq<char>>::empty());
        }
        while i < self.intrinsics.len()
            invariant
                i <= self.intrinsics.len(),
                self@.len() == self.intrinsics@.len(),
                forall|k: int| 0 <= k < self.intrinsics@.len() ==> self@[k] == (#[trigger] self.intrinsics@[k])@,
                resolve_name(self@.take(i as int), name@) is None,
            decreases self.intrinsics.len() - i,
        {
            proof {
                assert(self@.take(i + 1).drop_last() =~= self@.take(i as int));
                assert(self@.take(i + 1).last() == self.intrinsics@[i as int]@);
            }
            if self.intrinsics[i] == *name {
                proof {
                    lemma_resolve_prefix(self@, i + 1, name@);
                }
                return Some(i);
            }
            i = i + 1;
        }
        proof {
            assert(self@.take(i as int) =~= self@);
        }
        None
    }
}

/// A name resolves exactly if the environment holds it.
pub proof fn lemma_resolve_contains(intrinsics: Seq<Seq<char>>, name: Seq<char>)
    ensures
        resolve_name(intrinsics, name) is Some <==> intrinsics.contains(name),
    decreases intrinsics.len(),
{
    if intrinsics.len() > 0 {
        let shorter = intrinsics.drop_last();
        lemma_resolve_contains(shorter, name);
        if intrinsics.contains(name) {
            let i = choose|i: int| 0 <= i < intrinsics.len() && intrinsics[i] == name;
            if i < shorter.len() {
                assert(shorter[i] == name);
            }
        }
        if shorter.contains(name) {
            let i = choose|i: int| 0 <= i < shorter.len() && shorter[i] == name;
            assert(intrinsics[i] == name);
        }
        if intrinsics.last() == name {
            assert(intrinsics[intrinsics.len() - 1] == name);
        }
    }
}

/// A name that resolves among the first intrinsics resolves to the same
/// handle among all of them.
proof fn lemma_resolve_prefix(intrinsics: Seq<Seq<char>>, count: int, name: Seq<char>)
    requires
        0 <= count <= intrinsics.len(),
        resolve_name(intrinsics.take(count), name) is Some,
    ensures
        resolve_name(intrinsics, name) == resolve_name(intrinsics.take(count), name),
    decreases intrinsics.len(),
{
    if count == intrinsics.len() {
        assert(intrinsics.take(count) =~= intrinsics);
    } else {
        assert(intrinsics.drop_last().take(count) =~= intrinsics.take(count));
        lemma_resolve_prefix(intrinsics.drop_last(), count, name);
    }
}

} // verus!
