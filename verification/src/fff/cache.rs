//! Which file indexes are kept.

use vstd::prelude::*;

use crate::collections::contains_id;
use crate::fff;
use crate::fff::{same_file_index_config, FilePickerConfig};
use crate::paths;
use crate::paths::{copy_path, same_path};

verus! {

pub const WORKSPACE_CACHE_CAPACITY: usize = 4;

/// A place for the index of a workspace.
#[derive(Debug)]
pub struct FffWorkspaceSlot {
    /// The number of the slot.
    pub id: u64,
    /// The components of the path of the workspace.
    pub root: Vec<String>,
    pub config: FilePickerConfig,
    /// The index, once it has been made.
    pub workspace: Option<u64>,
}

pub struct SlotView {
    pub id: u64,
    pub root: Seq<Seq<char>>,
    pub config: FilePickerConfig,
    pub workspace: Option<u64>,
}

impl View for FffWorkspaceSlot {
    type V = SlotView;

    open spec fn view(&self) -> SlotView {
        SlotView {
            id: self.id,
            root: paths::parts(self.root@),
            config: self.config,
            workspace: self.workspace,
        }
    }
}

impl SlotView {
    /// Whether the slot is for the listing of the workspace.
    pub open spec fn serves(self, root: Seq<Seq<char>>, config: FilePickerConfig) -> bool {
        self.root == root && fff::same_index(self.config, config)
    }
}

/// The indexes that are kept; the one used last stands last.
pub struct FffWorkspaceCache {
    pub slots: Vec<FffWorkspaceSlot>,
}

impl View for FffWorkspaceCache {
    type V = Seq<SlotView>;

    open spec fn view(&self) -> Seq<SlotView> {
        self.slots@.map_values(|s: FffWorkspaceSlot| s@)
    }
}

/// The first slot for the listing, or the number of slots.
pub open spec fn first_serving(
    slots: Seq<SlotView>,
    root: Seq<Seq<char>>,
    config: FilePickerConfig,
) -> int
    decreases slots.len(),
{
    if slots.len() == 0 || slots[0].serves(root, config) {
        0
    } else {
        1 + first_serving(slots.skip(1), root, config)
    }
}

/// The first slot that is not in use, or the number of slots.
pub open spec fn first_unused(slots: Seq<SlotView>, in_use: Seq<u64>) -> int
    decreases slots.len(),
{
    if slots.len() == 0 || !in_use.contains(slots[0].id) {
        0
    } else {
        1 + first_unused(slots.skip(1), in_use)
    }
}

proof fn lemma_first_serving(
    slots: Seq<SlotView>,
    root: Seq<Seq<char>>,
    config: FilePickerConfig,
    i: int,
)
    requires
        0 <= i <= slots.len(),
        forall|j: int| 0 <= j < i ==> !(#[trigger] slots[j]).serves(root, config),
        i < slots.len() ==> slots[i].serves(root, config),
    ensures
        first_serving(slots, root, config) == i,
    decreases i,
{
    if i > 0 {
        assert forall|j: int| 0 <= j < i - 1 implies !(#[trigger] slots.skip(1)[j]).serves(
            root,
            config,
        ) by {
            assert(!slots[j + 1].serves(root, config));
        }
        assert(!slots[0].serves(root, config));
        lemma_first_serving(slots.skip(1), root, config, i - 1);
    }
}

proof fn lemma_first_unused(slots: Seq<SlotView>, in_use: Seq<u64>, i: int)
    requires
        0 <= i <= slots.len(),
        forall|j: int| 0 <= j < i ==> in_use.contains((#[trigger] slots[j]).id),
        i < slots.len() ==> !in_use.contains(slots[i].id),
    ensures
        first_unused(slots, in_use) == i,
    decreases i,
{
    if i > 0 {
        assert forall|j: int| 0 <= j < i - 1 implies in_use.contains(
            (#[trigger] slots.skip(1)[j]).id,
        ) by {
            assert(in_use.contains(slots[j + 1].id));
        }
        assert(in_use.contains(slots[0].id));
        lemma_first_unused(slots.skip(1), in_use, i - 1);
    }
}

proof fn lemma_first_unused_bound(slots: Seq<SlotView>, in_use: Seq<u64>)
    ensures
        0 <= first_unused(slots, in_use) <= slots.len(),
    decreases slots.len(),
{
    if slots.len() > 0 {
        lemma_first_unused_bound(slots.skip(1), in_use);
    }
}

/// The slots after slots that are not in use have been given up, oldest first, until there are
/// no more than fit.
pub open spec fn trimmed(slots: Seq<SlotView>, in_use: Seq<u64>) -> Seq<SlotView>
    decreases slots.len(),
{
    let at = first_unused(slots, in_use);
    if slots.len() <= WORKSPACE_CACHE_CAPACITY || !(0 <= at < slots.len()) {
        slots
    } else {
        trimmed(slots.remove(at), in_use)
    }
}

/// The slot moves to where the one used last stands.
pub open spec fn touched(slots: Seq<SlotView>, at: int) -> Seq<SlotView> {
    slots.remove(at).push(slots[at])
}

/// The slots after the index of one was made.
pub open spec fn filled(slots: Seq<SlotView>, slot: u64, workspace: u64) -> Seq<SlotView> {
    slots.map_values(
        |s: SlotView|
            if s.id == slot && s.workspace is None {
                SlotView { workspace: Some(workspace), ..s }
            } else {
                s
            },
    )
}

impl FffWorkspaceCache {
    pub fn new() -> (r: Self)
        ensures
            r@ == Seq::<SlotView>::empty(),
    {
        let r = FffWorkspaceCache { slots: Vec::new() };
        assert(r@ =~= Seq::<SlotView>::empty());
        r
    }

    fn position(&self, root: &Vec<String>, config: &FilePickerConfig) -> (r: Option<usize>)
        ensures
            match r {
                Some(i) => i == first_serving(self@, paths::parts(root@), *config) && i < self@.len(),
                None => first_serving(self@, paths::parts(root@), *config) == self@.len(),
            },
    {
        let mut i: usize = 0;
        while i < self.slots.len()
            invariant
                i <= self.slots@.len(),
                forall|j: int| 0 <= j < i ==> !(#[trigger] self@[j]).serves(paths::parts(root@), *config),
            decreases self.slots@.len() - i,
        {
            let slot = &self.slots[i];
            if same_path(&slot.root, root) && same_file_index_config(&slot.config, config) {
                proof {
                    assert(self@[i as int].serves(paths::parts(root@), *config));
                    lemma_first_serving(self@, paths::parts(root@), *config, i as int);
                }
                return Some(i);
            }
            assert(!self@[i as int].serves(paths::parts(root@), *config));
            i += 1;
        }
        proof {
            lemma_first_serving(self@, paths::parts(root@), *config, i as int);
        }
        None
    }

    /// The slot for the listing of a workspace, and whether there was one. `fresh` is the number
    /// of the slot that is made otherwise; `in_use` are the slots that somebody uses.
    pub fn slot_for(
        &mut self,
        root: &Vec<String>,
        config: &FilePickerConfig,
        fresh: u64,
        in_use: &Vec<u64>,
    ) -> (r: (u64, bool))
        ensures
            ({
                let at = first_serving(old(self)@, paths::parts(root@), *config);
                if at < old(self)@.len() {
                    &&& r == (old(self)@[at].id, true)
                    &&& final(self)@ == touched(old(self)@, at)
                } else {
                    let slot = SlotView {
                        id: fresh,
                        root: paths::parts(root@),
                        config: *config,
                        workspace: None,
                    };
                    &&& r == (fresh, false)
                    &&& final(self)@ == trimmed(old(self)@.push(slot), in_use@.push(fresh))
                }
            }),
    {
        let ghost before = self@;
        if let Some(i) = self.position(root, config) {
            let slot = self.slots.remove(i);
            let id: u64 = slot.id;
            self.slots.push(slot);
            assert(self@ =~= touched(before, i as int));
            return (id, true);
        }
        let slot = FffWorkspaceSlot {
            id: fresh,
            root: copy_path(root),
            config: *config,
            workspace: None,
        };
        self.slots.push(slot);
        assert(self@ =~= before.push(slot@));
        let mut used: Vec<u64> = crate::collections::copy_ids(in_use);
        used.push(fresh);
        self.trim(&used);
        (fresh, false)
    }

    /// The index for the listing of a workspace, if it has been made.
    pub fn ready(&mut self, root: &Vec<String>, config: &FilePickerConfig) -> (r: Option<u64>)
        ensures
            ({
                let at = first_serving(old(self)@, paths::parts(root@), *config);
                if at < old(self)@.len() {
                    &&& r == old(self)@[at].workspace
                    &&& final(self)@ == touched(old(self)@, at)
                } else {
                    &&& r is None
                    &&& final(self)@ == old(self)@
                }
            }),
    {
        let ghost before = self@;
        match self.position(root, config) {
            Some(i) => {
                let slot = self.slots.remove(i);
                let workspace = slot.workspace;
                self.slots.push(slot);
                assert(self@ =~= touched(before, i as int));
                workspace
            },
            None => None,
        }
    }

    /// The index of a slot has been made, unless it had one before.
    pub fn made(&mut self, slot: u64, workspace: u64)
        ensures
            final(self)@ == filled(old(self)@, slot, workspace),
    {
        let ghost before = self@;
        let mut i: usize = 0;
        while i < self.slots.len()
            invariant
                i <= self.slots@.len(),
                self.slots@.len() == before.len(),
                before == old(self)@,
                forall|j: int| i <= j < before.len() ==> (#[trigger] self.slots@[j])@ == before[j],
                forall|j: int|
                    0 <= j < i ==> (#[trigger] self.slots@[j])@ == filled(
                        before,
                        slot,
                        workspace,
                    )[j],
            decreases self.slots@.len() - i,
        {
            assert(self.slots@[i as int]@ == before[i as int]);
            if self.slots[i].id == slot && self.slots[i].workspace.is_none() {
                self.slots[i].workspace = Some(workspace);
            }
            i += 1;
        }
        assert(self@ =~= filled(before, slot, workspace));
    }

    /// Gives up indexes that are not in use, until there are no more than fit.
    pub fn trim(&mut self, in_use: &Vec<u64>)
        ensures
            final(self)@ == trimmed(old(self)@, in_use@),
    {
        while self.slots.len() > WORKSPACE_CACHE_CAPACITY
            invariant_except_break
                trimmed(self@, in_use@) == trimmed(old(self)@, in_use@),
            ensures
                self@ == trimmed(old(self)@, in_use@),
            decreases self.slots@.len(),
        {
            let ghost before = self@;
            match self.unused(in_use) {
                Some(i) => {
                    self.slots.remove(i);
                    assert(self@ =~= before.remove(i as int));
                },
                None => {
                    break;
                },
            }
        }
    }

    fn unused(&self, in_use: &Vec<u64>) -> (r: Option<usize>)
        ensures
            match r {
                Some(i) => i == first_unused(self@, in_use@) && i < self@.len(),
                None => first_unused(self@, in_use@) == self@.len(),
            },
    {
        let mut i: usize = 0;
        while i < self.slots.len()
            invariant
                i <= self.slots@.len(),
                forall|j: int| 0 <= j < i ==> in_use@.contains((#[trigger] self@[j]).id),
            decreases self.slots@.len() - i,
        {
            if !contains_id(in_use, self.slots[i].id) {
                proof {
                    assert(!in_use@.contains(self@[i as int].id));
                    lemma_first_unused(self@, in_use@, i as int);
                }
                return Some(i);
            }
            assert(in_use@.contains(self@[i as int].id));
            i += 1;
        }
        proof {
            lemma_first_unused(self@, in_use@, i as int);
        }
        None
    }
}

/// What is left after trimming fits, or all of it is in use.
pub proof fn law_trimmed_caches_fit(slots: Seq<SlotView>, in_use: Seq<u64>)
    ensures
        trimmed(slots, in_use).len() <= WORKSPACE_CACHE_CAPACITY || forall|i: int|
            0 <= i < trimmed(slots, in_use).len() ==> in_use.contains(
                (#[trigger] trimmed(slots, in_use)[i]).id,
            ),
    decreases slots.len(),
{
    lemma_first_unused_bound(slots, in_use);
    let at = first_unused(slots, in_use);
    if slots.len() > WORKSPACE_CACHE_CAPACITY {
        if at < slots.len() {
            law_trimmed_caches_fit(slots.remove(at), in_use);
        } else {
            lemma_none_unused(slots, in_use);
        }
    }
}

proof fn lemma_none_unused(slots: Seq<SlotView>, in_use: Seq<u64>)
    requires
        first_unused(slots, in_use) == slots.len(),
    ensures
        forall|i: int| 0 <= i < slots.len() ==> in_use.contains((#[trigger] slots[i]).id),
    decreases slots.len(),
{
    if slots.len() > 0 {
        assert(in_use.contains(slots[0].id));
        lemma_none_unused(slots.skip(1), in_use);
        assert forall|i: int| 0 <= i < slots.len() implies in_use.contains(
            (#[trigger] slots[i]).id,
        ) by {
            if i > 0 {
                assert(in_use.contains(slots.skip(1)[i - 1].id));
            }
        }
    }
}

/// A slot that is in use is never given up.
pub proof fn law_slots_in_use_are_kept(slots: Seq<SlotView>, in_use: Seq<u64>, slot: SlotView)
    requires
        slots.contains(slot),
        in_use.contains(slot.id),
    ensures
        trimmed(slots, in_use).contains(slot),
    decreases slots.len(),
{
    lemma_first_unused_bound(slots, in_use);
    let at = first_unused(slots, in_use);
    if slots.len() > WORKSPACE_CACHE_CAPACITY && at < slots.len() {
        lemma_first_unused_is_unused(slots, in_use);
        let i = slots.index_of(slot);
        assert(slots[i] == slot);
        let rest = slots.remove(at);
        if i < at {
            assert(rest[i] == slot);
        } else {
            assert(rest[i - 1] == slot);
        }
        law_slots_in_use_are_kept(rest, in_use, slot);
    }
}

proof fn lemma_first_unused_is_unused(slots: Seq<SlotView>, in_use: Seq<u64>)
    requires
        first_unused(slots, in_use) < slots.len(),
    ensures
        0 <= first_unused(slots, in_use),
        !in_use.contains(slots[first_unused(slots, in_use)].id),
    decreases slots.len(),
{
    if slots.len() > 0 && in_use.contains(slots[0].id) {
        lemma_first_unused_is_unused(slots.skip(1), in_use);
    }
}

/// What serves a root is the first slot for it whose index is the same.
pub proof fn law_the_first_fitting_slot_serves(
    slots: Seq<SlotView>,
    root: Seq<Seq<char>>,
    config: FilePickerConfig,
)
    ensures
        0 <= first_serving(slots, root, config) <= slots.len(),
        first_serving(slots, root, config) < slots.len() ==> {
            let slot = slots[first_serving(slots, root, config)];
            slot.root == root && fff::same_index(slot.config, config)
        },
        forall|i: int|
            0 <= i < first_serving(slots, root, config) ==> !((#[trigger] slots[i]).root == root
                && fff::same_index(slots[i].config, config)),
    decreases slots.len(),
{
    if slots.len() > 0 && !slots[0].serves(root, config) {
        let rest = slots.skip(1);
        law_the_first_fitting_slot_serves(rest, root, config);
        assert forall|i: int| 0 < i < slots.len() implies #[trigger] slots[i] == rest[i - 1] by {}
    }
}

/// A slot that is used again is the last to be given up; the order of the others stays.
pub proof fn law_used_slots_are_given_up_last(slots: Seq<SlotView>, at: int)
    requires
        0 <= at < slots.len(),
    ensures
        ({
            let after = touched(slots, at);
            &&& after.len() == slots.len()
            &&& after.last() == slots[at]
            &&& forall|i: int| 0 <= i < at ==> #[trigger] after[i] == slots[i]
            &&& forall|i: int| at < i < slots.len() ==> after[i - 1] == #[trigger] slots[i]
        }),
{
}

/// Where nothing is in use the slots that were used last stay, as many as there is room for.
pub proof fn law_the_slots_used_last_stay(slots: Seq<SlotView>)
    ensures
        trimmed(slots, seq![]) == if slots.len() > 4 {
            slots.skip(slots.len() - 4)
        } else {
            slots
        },
    decreases slots.len(),
{
    if slots.len() > 4 {
        let rest = slots.remove(0);
        assert(first_unused(slots, seq![]) == 0);
        law_the_slots_used_last_stay(rest);
        assert(rest =~= slots.skip(1));
        if slots.len() > 5 {
            assert(rest.skip(rest.len() - 4) =~= slots.skip(slots.len() - 4));
        } else {
            assert(rest =~= slots.skip(slots.len() - 4));
        }
    }
}

/// No more slots are given up than have to be.
pub proof fn law_trimming_stops_when_all_fit(slots: Seq<SlotView>, in_use: Seq<u64>)
    ensures
        slots.len() <= 4 ==> trimmed(slots, in_use) == slots,
        slots.len() > 4 ==> trimmed(slots, in_use).len() >= 4,
    decreases slots.len(),
{
    let at = first_unused(slots, in_use);
    if slots.len() > 4 && 0 <= at < slots.len() {
        law_trimming_stops_when_all_fit(slots.remove(at), in_use);
    }
}

/// A workspace that was made goes to its slot, unless that has one, and to no other.
pub proof fn law_workspaces_go_to_their_slot(
    slots: Seq<SlotView>,
    slot: u64,
    workspace: u64,
    i: int,
)
    requires
        0 <= i < slots.len(),
    ensures
        ({
            let after = filled(slots, slot, workspace);
            &&& after.len() == slots.len()
            &&& slots[i].id == slot && slots[i].workspace is None ==> after[i].workspace == Some(
                workspace,
            )
            &&& slots[i].id != slot || slots[i].workspace is Some ==> after[i] == slots[i]
            &&& after[i].id == slots[i].id && after[i].root == slots[i].root && after[i].config
                == slots[i].config
        }),
{
}

} // verus!
