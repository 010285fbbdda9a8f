//! Choice of the compute device among those the host reports.
use vstd::prelude::*;

verus! {

/// What kind of device an adapter drives.
#[derive(Debug, Clone, Copy, PartialEq, Eq, Structural)]
pub enum DeviceKind {
    Other,
    IntegratedGpu,
    DiscreteGpu,
    VirtualGpu,
    Cpu,
}

/// Index of the first `k` in `kinds`, if there is one.
pub open spec fn first_index(kinds: Seq<DeviceKind>, k: DeviceKind) -> Option<int>
    decreases kinds.len(),
{
    if kinds.len() == 0 {
        None
    } else if kinds[0] == k {
        Some(0)
    } else {
        match first_index(kinds.drop_first(), k) {
            Some(i) => Some(i + 1),
            None => None,
        }
    }
}

/// The adapter to use: the first discrete GPU; else the first integrated GPU;
/// else the first adapter of any kind; none when there are no adapters.
pub open spec fn preferred_adapter(kinds: Seq<DeviceKind>) -> Option<int> {
    match first_index(kinds, DeviceKind::DiscreteGpu) {
        Some(i) => Some(i),
        None => match first_index(kinds, DeviceKind::IntegratedGpu) {
            Some(i) => Some(i),
            None => if kinds.len() == 0 { None } else { Some(0) },
        },
    }
}

proof fn lemma_first_index_found(kinds: Seq<DeviceKind>, k: DeviceKind, i: int)
    requires
        0 <= i < kinds.len(),
        kinds[i] == k,
        forall|j: int| 0 <= j < i ==> kinds[j] != k,
    ensures
        first_index(kinds, k) == Some(i),
    decreases i,
{
    if i > 0 {
        assert(kinds[0] != k);
        assert forall|j: int| 0 <= j < i - 1 implies kinds.drop_first()[j] != k by {
            assert(kinds[j + 1] != k);
        }
        lemma_first_index_found(kinds.drop_first(), k, i - 1);
    }
}

/// Picks the adapter to sort on from the kinds of the adapters found, in the
/// order they were found.
pub fn select_adapter(kinds: &Vec<DeviceKind>) -> (r: Option<usize>)
    ensures
        r matches Some(i) ==> preferred_adapter(kinds@) == Some(i as int),
        r is None ==> preferred_adapter(kinds@) is None,
{
    let mut discrete: Option<usize> = None;
    let mut integrated: Option<usize> = None;
    let mut i: usize = 0;
    while i < kinds.len()
        invariant
            i <= kinds@.len(),
            discrete is None ==> forall|j: int| 0 <= j < i ==> kinds@[j] != DeviceKind::DiscreteGpu,
            discrete matches Some(d) ==> first_index(kinds@, DeviceKind::DiscreteGpu) == Some(d as int),
            integrated is None ==> forall|j: int| 0 <= j < i ==> kinds@[j] != DeviceKind::IntegratedGpu,
            integrated matches Some(g) ==> first_index(kinds@, DeviceKind::IntegratedGpu) == Some(g as int),
        decreases kinds.len() - i,
    {
        if discrete.is_none() && kinds[i] == DeviceKind::DiscreteGpu {
            proof {
                lemma_first_index_found(kinds@, DeviceKind::DiscreteGpu, i as int);
            }
            discrete = Some(i);
        }
        if integrated.is_none() && kinds[i] == DeviceKind::IntegratedGpu {
            proof {
                lemma_first_index_found(kinds@, DeviceKind::IntegratedGpu, i as int);
            }
            integrated = Some(i);
        }
        i = i + 1;
    }
    proof {
        lemma_first_index_absent(kinds@, DeviceKind::DiscreteGpu);
        lemma_first_index_absent(kinds@, DeviceKind::IntegratedGpu);
    }
    match discrete {
        Some(d) => Some(d),
        None => match integrated {
            Some(g) => Some(g),
            None => if kinds.len() == 0 {
                None
            } else {
                Some(0)
            },
        },
    }
}

proof fn lemma_first_index_absent(kinds: Seq<DeviceKind>, k: DeviceKind)
    ensures
        (forall|j: int| 0 <= j < kinds.len() ==> kinds[j] != k) ==> first_index(kinds, k) is None,
    decreases kinds.len(),
{
    if kinds.len() > 0 {
        lemma_first_index_absent(kinds.drop_first(), k);
        if forall|j: int| 0 <= j < kinds.len() ==> kinds[j] != k {
            assert forall|j: int| 0 <= j < kinds.drop_first().len() implies kinds.drop_first()[j] != k by {
                assert(kinds[j + 1] != k);
            }
        }
    }
}

} // verus!
