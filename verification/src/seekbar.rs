//! The playback seekbar: which emitters set the length of the timeline and the elapsed
//! time, and how dragging the bar takes over the elapsed time from playback.
use vstd::prelude::*;

verus! {

/// The drag state of the seekbar: whether the pointer is dragging it, and the time the
/// drag points at (of the time type `T` of the caller).
pub struct SeekbarDragState<T> {
    pub dragging: bool,
    pub drag_time: T,
}

impl<T: Copy> SeekbarDragState<T> {
    /// A seekbar that is not dragged, remembering `drag_time`.
    pub fn idle(drag_time: T) -> (res: Self)
        ensures
            !res.dragging,
            res.drag_time == drag_time,
    {
        SeekbarDragState { dragging: false, drag_time }
    }

    /// The pointer starts dragging the seekbar.
    pub fn start_drag(&mut self)
        ensures
            final(self).dragging,
            final(self).drag_time == old(self).drag_time,
    {
        self.dragging = true;
    }

    /// The pointer stops dragging the seekbar.
    pub fn end_drag(&mut self)
        ensures
            !final(self).dragging,
            final(self).drag_time == old(self).drag_time,
    {
        self.dragging = false;
    }

    /// Whether a pointer movement over the seekbar moves the fill and seeks: only during
    /// a drag.
    pub fn follows_pointer(&self) -> (res: bool)
        ensures
            res == self.dragging,
    {
        self.dragging
    }

    /// A seek to `time` was requested by dragging: the drag now points at `time`.
    pub fn seek_to(&mut self, time: T)
        ensures
            final(self).dragging == old(self).dragging,
            final(self).drag_time == time,
    {
        self.drag_time = time;
    }

    /// The time shown as elapsed: the dragged time while dragging, the playback time
    /// otherwise.
    pub fn displayed_elapsed(&self, playback: T) -> (res: T)
        ensures
            res == shown_elapsed(*self, playback),
            self.dragging ==> res == self.drag_time,
            !self.dragging ==> res == playback,
    {
        if self.dragging {
            self.drag_time
        } else {
            playback
        }
    }

    /// Whether the fill of the bar follows playback: not during a drag, when the pointer
    /// sets it.
    pub fn fill_follows_playback(&self) -> (res: bool)
        ensures
            res == !self.dragging,
    {
        !self.dragging
    }
}

/// The emitters that are the targets of sub-emitters, in the order of the emitters that
/// name them.
pub open spec fn sub_emitter_targets_spec(sub_emitters: Seq<Option<usize>>) -> Seq<usize>
    decreases sub_emitters.len(),
{
    if sub_emitters.len() == 0 {
        Seq::empty()
    } else {
        let rest = sub_emitter_targets_spec(sub_emitters.drop_last());
        match sub_emitters.last() {
            Some(t) => rest.push(t),
            None => rest,
        }
    }
}

/// The sub-emitter targets are exactly the targets that the emitters name, one for each
/// emitter that has a sub-emitter, in emitter order, the last emitter included: every
/// named target occurs in them, and each of them is named by some emitter.
pub proof fn lemma_sub_emitter_targets_law(sub_emitters: Seq<Option<usize>>)
    ensures
        sub_emitter_targets_spec(sub_emitters) == sub_emitters.filter(
            |o: Option<usize>| o is Some,
        ).map_values(|o: Option<usize>| o->0),
        forall|i: int|
            0 <= i < sub_emitters.len() && (#[trigger] sub_emitters[i]) is Some
                ==> sub_emitter_targets_spec(sub_emitters).contains(sub_emitters[i]->0),
        forall|k: int|
            0 <= k < sub_emitter_targets_spec(sub_emitters).len() ==> exists|i: int|
                0 <= i < sub_emitters.len() && sub_emitters[i] == Some(
                    #[trigger] sub_emitter_targets_spec(sub_emitters)[k],
                ),
    decreases sub_emitters.len(),
{
    let r = sub_emitter_targets_spec(sub_emitters);
    if sub_emitters.len() == 0 {
        assert(sub_emitters.filter(|o: Option<usize>| o is Some) =~= Seq::<Option<usize>>::empty())
            by {
            reveal_with_fuel(Seq::filter, 1);
        }
    } else {
        let prev = sub_emitters.drop_last();
        let last = sub_emitters.last();
        let rp = sub_emitter_targets_spec(prev);
        lemma_sub_emitter_targets_law(prev);
        assert(sub_emitters =~= prev.push(last));
        prev.lemma_filter_push(last, |o: Option<usize>| o is Some);
        let fp = prev.filter(|o: Option<usize>| o is Some);
        match last {
            Some(t) => {
                assert(r == rp.push(t));
                assert(fp.push(last).map_values(|o: Option<usize>| o->0) =~= fp.map_values(
                    |o: Option<usize>| o->0,
                ).push(t));
            },
            None => {
                assert(r == rp);
            },
        }
        assert forall|i: int|
            0 <= i < sub_emitters.len() && (#[trigger] sub_emitters[i]) is Some implies r.contains(
            sub_emitters[i]->0,
        ) by {
            if i < sub_emitters.len() - 1 {
                assert(prev[i] == sub_emitters[i]);
                assert(rp.contains(prev[i]->0));
                let m = choose|m: int| 0 <= m < rp.len() && rp[m] == prev[i]->0;
                assert(r[m] == rp[m]);
            } else {
                assert(r[r.len() - 1] == last->0);
            }
        }
        assert forall|k: int| 0 <= k < r.len() implies exists|i: int|
            0 <= i < sub_emitters.len() && sub_emitters[i] == Some(#[trigger] r[k]) by {
            if k < rp.len() {
                assert(r[k] == rp[k]);
                let i = choose|i: int| 0 <= i < prev.len() && prev[i] == Some(rp[k]);
                assert(sub_emitters[i] == prev[i]);
            } else {
                assert(sub_emitters[sub_emitters.len() - 1] == Some(r[k]));
            }
        }
    }
}

/// The targets of the sub-emitters: for each emitter that has a sub-emitter, the index of
/// the emitter it spawns into. `sub_emitters[i]` is that index for emitter `i`, if any.
pub fn sub_emitter_targets(sub_emitters: &Vec<Option<usize>>) -> (res: Vec<usize>)
    ensures
        res@ == sub_emitter_targets_spec(sub_emitters@),
        res@ == sub_emitters@.filter(|o: Option<usize>| o is Some).map_values(
            |o: Option<usize>| o->0,
        ),
        forall|i: int|
            0 <= i < sub_emitters@.len() && (#[trigger] sub_emitters@[i]) is Some
                ==> res@.contains(sub_emitters@[i]->0),
        forall|k: int|
            0 <= k < res@.len() ==> exists|i: int|
                0 <= i < sub_emitters@.len() && sub_emitters@[i] == Some(#[trigger] res@[k]),
{
    proof {
        lemma_sub_emitter_targets_law(sub_emitters@);
    }
    let mut res: Vec<usize> = Vec::new();
    let mut i: usize = 0;
    assert(sub_emitters@.take(0) =~= Seq::<Option<usize>>::empty());
    while i < sub_emitters.len()
        invariant
            i <= sub_emitters.len(),
            res@ == sub_emitter_targets_spec(sub_emitters@.take(i as int)),
        decreases sub_emitters.len() - i,
    {
        proof {
            let t = sub_emitters@.take(i + 1);
            assert(t.drop_last() =~= sub_emitters@.take(i as int));
            assert(t.last() == sub_emitters@[i as int]);
        }
        match sub_emitters[i] {
            Some(t) => res.push(t),
            None => {},
        }
        i = i + 1;
    }
    assert(sub_emitters@.take(sub_emitters.len() as int) =~= sub_emitters@);
    res
}

/// Whether `v` holds `x`.
fn contains_index(v: &Vec<usize>, x: usize) -> (res: bool)
    ensures
        res == v@.contains(x),
{
    let mut i: usize = 0;
    while i < v.len()
        invariant
            i <= v.len(),
            forall|j: int| 0 <= j < i ==> v@[j] != x,
        decreases v.len() - i,
    {
        if v[i] == x {
            return true;
        }
        i = i + 1;
    }
    false
}

/// The emitters that are no sub-emitter target: they alone set the length of the
/// timeline. The result lists their indices below `emitter_count` in ascending order.
pub fn primary_emitters(emitter_count: usize, targets: &Vec<usize>) -> (res: Vec<usize>)
    ensures
        res@ == Seq::new(emitter_count as nat, |i: int| i as usize).filter(
            |i: usize| !targets@.contains(i),
        ),
{
    let ghost all = Seq::new(emitter_count as nat, |i: int| i as usize);
    let mut res: Vec<usize> = Vec::new();
    let mut i: usize = 0;
    assert(all.take(0).filter(|i: usize| !targets@.contains(i)) =~= Seq::<usize>::empty()) by {
        assert(all.take(0) =~= Seq::<usize>::empty());
        reveal_with_fuel(Seq::filter, 1);
    }
    while i < emitter_count
        invariant
            i <= emitter_count,
            all == Seq::new(emitter_count as nat, |i: int| i as usize),
            res@ == all.take(i as int).filter(|i: usize| !targets@.contains(i)),
        decreases emitter_count - i,
    {
        proof {
            assert(all.take(i + 1) =~= all.take(i as int).push(i));
            all.take(i as int).lemma_filter_push(i, |i: usize| !targets@.contains(i));
        }
        if !contains_index(targets, i) {
            res.push(i);
        }
        i = i + 1;
    }
    assert(all.take(emitter_count as int) =~= all);
    res
}

/// Whether the runtime of an emitter counts toward the elapsed time of the previewed
/// system: it belongs to that system and its emitter is no sub-emitter target.
pub fn runtime_counts_toward_elapsed(
    runtime_system: u64,
    previewed_system: u64,
    emitter_index: usize,
    targets: &Vec<usize>,
) -> (res: bool)
    ensures
        res == (runtime_system == previewed_system && !targets@.contains(emitter_index)),
{
    runtime_system == previewed_system && !contains_index(targets, emitter_index)
}

/// The time shown as elapsed for the drag state `s` (see
/// `SeekbarDragState::displayed_elapsed`).
pub open spec fn shown_elapsed<T>(s: SeekbarDragState<T>, playback: T) -> T {
    if s.dragging {
        s.drag_time
    } else {
        playback
    }
}

/// A drag that seeks to `time` shows `time` as elapsed and holds the fill, whatever the
/// playback does; once the drag ends, playback is shown again and moves the fill.
pub proof fn lemma_drag_takes_over<T>(s: SeekbarDragState<T>, time: T, playback: T)
    ensures
        ({
            let dragged = SeekbarDragState { dragging: true, drag_time: time };
            &&& shown_elapsed(dragged, playback) == time
            &&& dragged.dragging
        }),
        ({
            let released = SeekbarDragState { dragging: false, drag_time: time };
            &&& shown_elapsed(released, playback) == playback
            &&& !released.dragging
        }),
{
}

} // verus!
