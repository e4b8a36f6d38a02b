//! The events that a progress tree emits.

use vstd::prelude::*;
use crate::generation::Generation;
use crate::id::ProgressId;
use crate::priority::PriorityLevel;

verus! {

/// A progress event.
#[derive(Clone, PartialEq, Eq, Debug)]
pub enum Event {
    /// A progress had its task updated, or its set of children changed.
    Update(UpdateEvent),
    /// A progress has posted a message.
    Message(MessageEvent),
    /// A progress has been removed from its parent.
    Detachment(DetachmentEvent),
    /// The generation counter has overflown.
    GenerationOverflow,
}

/// An update event.
#[derive(Clone, PartialEq, Eq, Debug)]
pub struct UpdateEvent {
    /// The associated progress' identifier.
    pub id: ProgressId,
}

/// A message event.
#[derive(Clone, PartialEq, Eq, Debug)]
pub struct MessageEvent {
    /// The associated progress' identifier.
    pub id: ProgressId,
    /// The posted message.
    pub message: String,
    /// The message's priority level.
    pub priority: PriorityLevel,
}

/// A detachment event.
#[derive(Clone, PartialEq, Eq, Debug)]
pub struct DetachmentEvent {
    /// The identifier of the progress that was removed.
    pub id: ProgressId,
}

impl Event {
    /// The update event of the progress `id`.
    pub open spec fn update(id: ProgressId) -> Event {
        Event::Update(UpdateEvent { id })
    }

    /// The detachment event of the progress `id`.
    pub open spec fn detachment(id: ProgressId) -> Event {
        Event::Detachment(DetachmentEvent { id })
    }

    /// The message event of the progress `id`.
    pub open spec fn message(id: ProgressId, message: String, priority: PriorityLevel) -> Event {
        Event::Message(MessageEvent { id, message, priority })
    }

    /// The events that a clock emits when it advances by one from `before`:
    /// one overflow event if it wraps around, else none.
    pub open spec fn on_tick(before: Generation) -> Seq<Event> {
        if before.0 == usize::MAX {
            seq![Event::GenerationOverflow]
        } else {
            Seq::empty()
        }
    }

    /// The events that a tree emits when its clock advances by one from
    /// `before` for a change to the progress `id`: the clock's events, then
    /// the update event of the progress.
    pub open spec fn on_change(before: Generation, id: ProgressId) -> Seq<Event> {
        Self::on_tick(before).push(Self::update(id))
    }

    /// The events that a tree emits when its clock advances by one from
    /// `before` for the removal of the progress `id` from its parent: the
    /// clock's events, then the detachment event of the progress, then the
    /// update event of the parent.
    pub open spec fn on_detach(before: Generation, id: ProgressId, parent: ProgressId) -> Seq<
        Event,
    > {
        Self::on_tick(before).push(Self::detachment(id)).push(Self::update(parent))
    }

    /// The number of update events in a sequence of events.
    pub open spec fn count_updates(events: Seq<Event>) -> nat
        decreases events.len(),
    {
        if events.len() == 0 {
            0
        } else {
            Self::count_updates(events.drop_last()) + (if events.last() is Update {
                1nat
            } else {
                0nat
            })
        }
    }

    /// The number of overflow events in a sequence of events.
    pub open spec fn count_overflows(events: Seq<Event>) -> nat
        decreases events.len(),
    {
        if events.len() == 0 {
            0
        } else {
            Self::count_overflows(events.drop_last()) + (if events.last() is GenerationOverflow {
                1nat
            } else {
                0nat
            })
        }
    }

    /// The events of a detachment hold exactly one detachment event and then
    /// exactly one update event, at the end, and exactly one overflow event
    /// if the clock wraps around, none else.
    pub proof fn lemma_on_detach(before: Generation, id: ProgressId, parent: ProgressId)
        ensures
            Self::count_updates(Self::on_detach(before, id, parent)) == 1,
            Self::count_overflows(Self::on_detach(before, id, parent)) == (if before.0
                == usize::MAX {
                1nat
            } else {
                0nat
            }),
            Self::on_detach(before, id, parent).last() == Self::update(parent),
            Self::on_detach(before, id, parent).drop_last().last() == Self::detachment(id),
    {
        let tick = Self::on_tick(before);
        let all = Self::on_detach(before, id, parent);
        let none = Seq::<Event>::empty();
        assert(Self::count_updates(none) == 0 && Self::count_overflows(none) == 0);
        let middle = tick.push(Self::detachment(id));
        assert(all.drop_last() =~= middle);
        assert(middle.drop_last() =~= tick);
        if before.0 == usize::MAX {
            assert(tick.drop_last() =~= none);
            assert(tick.last() is GenerationOverflow);
            assert(Self::count_updates(tick) == 0 && Self::count_overflows(tick) == 1);
        } else {
            assert(tick =~= none);
        }
        assert(Self::count_updates(middle) == Self::count_updates(tick));
        assert(Self::count_overflows(middle) == Self::count_overflows(tick));
    }

    /// The update events of two sequences of events, one after the other,
    /// are those of the first and those of the second.
    pub proof fn lemma_count_updates_concat(first: Seq<Event>, second: Seq<Event>)
        ensures
            Self::count_updates(first + second) == Self::count_updates(first)
                + Self::count_updates(second),
        decreases second.len(),
    {
        if second.len() == 0 {
            assert(first + second =~= first);
        } else {
            Self::lemma_count_updates_concat(first, second.drop_last());
            assert((first + second).drop_last() =~= first + second.drop_last());
        }
    }

    /// Single event per change, and one overflow event per wrap: the events
    /// of a change hold exactly one update event, which is the last of them,
    /// and exactly one overflow event if the clock wraps around, none else.
    pub proof fn lemma_on_change(before: Generation, id: ProgressId)
        ensures
            Self::count_updates(Self::on_change(before, id)) == 1,
            Self::count_overflows(Self::on_change(before, id)) == (if before.0 == usize::MAX {
                1nat
            } else {
                0nat
            }),
            Self::on_change(before, id).last() == Self::update(id),
            before.successor().0 < before.0 <==> before.0 == usize::MAX,
    {
        let tick = Self::on_tick(before);
        let all = Self::on_change(before, id);
        let none = Seq::<Event>::empty();
        assert(Self::count_updates(none) == 0 && Self::count_overflows(none) == 0);
        assert(all.drop_last() =~= tick);
        if before.0 == usize::MAX {
            assert(tick.drop_last() =~= none);
            assert(tick.last() is GenerationOverflow);
            assert(Self::count_updates(tick) == 0 && Self::count_overflows(tick) == 1);
        } else {
            assert(tick =~= none);
        }
    }
}

} // verus!
