//! Queues of commands.
//!
//! A [`CommandQueue`] acts like a list of commands, but keeps account of a single
//! flat buffer that holds a sequence of *command records* and can be reused.
//!
//! # Command records
//!
//! Each record consists of metadata, followed by padding and the command. The start
//! and end of a record are aligned for the metadata, and the end of a record is
//! aligned for the command. The padding stands before the command, so that the
//! command is always at the end of its record.
//!
//! # Alignment
//!
//! The size of a record may depend on the offset of its start modulo the alignment
//! of the command. A queue therefore records the largest alignment of its commands,
//! and records are only moved by multiples of it. When a queue is appended to
//! another, a record that holds nothing but padding may be needed.
//!
//! # Command frames
//!
//! A world has a queue of its own. Commands that are being run may push to it and
//! run it. The part of the buffer that a nested run uses is a *command frame*.
//! While a frame runs, the buffer belongs to it, and the tail of the buffer is lent
//! to the queue for nested frames. When the frame completes, the buffer goes back to
//! the queue, unless a nested frame has allocated a larger one.

use std::collections::VecDeque;
use vstd::prelude::*;

use crate::entity::location::{Location, MaybeLocation};
use crate::layout::{round_up_to, Layout};

verus! {

/// The size of the metadata of a record: one pointer.
pub const META_SIZE: usize = 8;

/// The alignment of the metadata of a record.
pub const META_ALIGN: usize = 8;

/// The least alignment of the buffer of a queue.
///
/// Most memory allocators return buffers with this alignment, so that it is usually
/// free.
pub const MIN_COMMAND_QUEUE_ALIGN: usize = 16;

/// The end of the record of a command that starts at `start`.
pub open spec fn record_end(start: int, command: Layout) -> int {
    if command.align <= META_ALIGN {
        start + crate::layout::round_up(META_SIZE + command.size, META_ALIGN as int)
    } else {
        crate::layout::round_up(start + META_SIZE + command.size, command.align as int)
    }
}

/// The space that is enough for the record of a command, wherever it starts.
pub open spec fn record_size(command: Layout) -> int {
    if command.align <= META_ALIGN {
        crate::layout::round_up(META_SIZE + command.size, META_ALIGN as int)
    } else {
        command.align + command.size
    }
}

/// The layout that is enough for the record of a command, wherever it starts.
pub open spec fn record_layout_spec(command: Layout) -> Layout {
    Layout {
        size: record_size(command) as usize,
        align: if command.align <= META_ALIGN {
            META_ALIGN
        } else {
            command.align
        },
    }
}

/// Whether a layout is that of a value: the size is a multiple of the alignment.
pub open spec fn value_layout(layout: Layout) -> bool {
    layout.wf() && layout.size as int % layout.align as int == 0
}

/// One record of a queue.
pub struct Record<C> {
    /// The offset of the start of the record in the buffer.
    pub start: usize,
    /// The offset of the end of the record in the buffer.
    pub end: usize,
    /// The layout of the data of the record.
    pub layout: Layout,
    /// The command, or nothing if the record only aligns what follows it.
    pub command: Option<C>,
}

impl<C> Record<C> {
    /// Whether the record is placed as records are, in a buffer with an alignment.
    pub open spec fn wf(self, align: int) -> bool {
        &&& self.start < self.end
        &&& self.start as int % META_ALIGN as int == 0
        &&& self.end as int % META_ALIGN as int == 0
        &&& self.command is Some ==> {
            &&& value_layout(self.layout)
            &&& self.layout.align <= align
            &&& self.end == record_end(self.start as int, self.layout)
        }
    }
}

/// Whether records follow each other without a gap from one offset to another.
pub open spec fn contiguous<C>(records: Seq<Record<C>>, start: int, end: int) -> bool {
    &&& records.len() == 0 ==> start == end
    &&& records.len() > 0 ==> records[0].start == start && records.last().end == end
    &&& forall|i: int|
        #![trigger records[i].end]
        0 <= i && i + 1 < records.len() ==> records[i].end == records[i + 1].start
}

/// The commands of a sequence of records.
pub open spec fn commands_of<C>(records: Seq<Record<C>>) -> Seq<C>
    decreases records.len(),
{
    if records.len() == 0 {
        Seq::empty()
    } else {
        match records.last().command {
            Some(command) => commands_of(records.drop_last()).push(command),
            None => commands_of(records.drop_last()),
        }
    }
}

/// Stores a queue of commands.
pub struct CommandQueue<C> {
    /// The records of the current frame.
    pub records: VecDeque<Record<C>>,
    /// The layout of the buffer. Its alignment is not below that of any command.
    pub layout: Layout,
    /// The start of the current frame.
    pub start: usize,
    /// The end of the current frame, where the next record will be written.
    pub end: usize,
    /// Whether the queue owns the buffer. It does not if the buffer is empty or
    /// borrowed from an earlier frame.
    pub owned: bool,
    /// Where the queue was created.
    pub caller: MaybeLocation<Location>,
    /// Whether to warn if a command is dropped before it is applied.
    pub warn_on_unapplied: bool,
}

/// Whether a request cannot be met by a buffer with a layout of which the first `end`
/// bytes are in use.
pub open spec fn must_grow(layout: Layout, end: int, request: Layout) -> bool {
    ||| request.align > MIN_COMMAND_QUEUE_ALIGN && request.align > layout.align
    ||| layout.size - end < request.size
}

/// The size of a grown buffer, before it is rounded up to the alignment: the present
/// size if it is enough, or else twice as much, or else what is needed.
pub open spec fn grown_size(layout: Layout, end: int, request: Layout) -> int {
    let desired = end + request.size;
    if desired <= layout.size {
        layout.size as int
    } else if desired <= layout.size * 2 {
        layout.size * 2
    } else {
        desired
    }
}

/// The larger of two alignments.
pub open spec fn larger_align(a: Layout, b: Layout) -> usize {
    if a.align >= b.align {
        a.align
    } else {
        b.align
    }
}

/// The layout of the buffer after a request.
pub open spec fn layout_after(layout: Layout, end: int, request: Layout) -> Layout {
    if !must_grow(layout, end, request) {
        layout
    } else if layout.size == 0 && request.size == 0 {
        if request.align > layout.align {
            request
        } else {
            layout
        }
    } else {
        let align = larger_align(layout, request);
        Layout {
            size: crate::layout::round_up(
                grown_size(layout, end, request),
                align as int,
            ) as usize,
            align,
        }
    }
}

/// Whether a request allocates a buffer.
pub open spec fn allocates(layout: Layout, end: int, request: Layout) -> bool {
    must_grow(layout, end, request) && !(layout.size == 0 && request.size == 0)
}

/// Whether the buffer that a request leads to can be allocated.
pub open spec fn can_reserve(layout: Layout, end: int, request: Layout) -> bool {
    allocates(layout, end, request) ==> crate::layout::round_up(
        grown_size(layout, end, request),
        larger_align(layout, request) as int,
    ) <= isize::MAX
}

impl<C> CommandQueue<C> {
    /// Whether the queue is well-formed: its records are placed as they should be, and the
    /// last one holds a command.
    pub open spec fn wf(self) -> bool {
        self.placed() && (self.records@.len() > 0 ==> self.records@.last().command is Some)
    }

    /// Whether the records are placed as records are and fill the current frame, which
    /// lies in the buffer.
    pub open spec fn placed(self) -> bool {
        &&& self.layout.wf()
        &&& self.layout.align >= MIN_COMMAND_QUEUE_ALIGN
        &&& self.start <= self.end <= self.layout.size
        &&& self.start as int % META_ALIGN as int == 0
        &&& self.owned ==> self.layout.size > 0
        &&& contiguous(self.records@, self.start as int, self.end as int)
        &&& forall|i: int|
            0 <= i < self.records@.len() ==> (#[trigger] self.records@[i]).wf(
                self.layout.align as int,
            )
    }

    /// The commands in the queue, the one that is applied next first.
    pub open spec fn commands(self) -> Seq<C> {
        commands_of(self.records@)
    }

    /// Whether everything but the buffer is the same in two queues.
    pub open spec fn same_settings(self, other: Self) -> bool {
        self.start == other.start && self.caller == other.caller && self.warn_on_unapplied
            == other.warn_on_unapplied
    }

    /// Whether dropping the queue calls for a warning: it has commands, and the warning is not
    /// silenced.
    pub open spec fn warns(self) -> bool {
        self.end != self.start && self.warn_on_unapplied
    }

    /// Creates an empty queue that warns if commands are dropped before they are
    /// applied.
    pub fn new() -> (queue: Self)
        ensures
            queue.wf(),
            queue.records@.len() == 0,
            queue.layout == (Layout { size: 0, align: MIN_COMMAND_QUEUE_ALIGN }),
            queue.start == 0,
            queue.end == 0,
            !queue.owned,
            queue.caller is Off,
            queue.warn_on_unapplied,
    {
        proof {
            crate::layout::small_powers_of_two();
        }
        CommandQueue {
            records: VecDeque::new(),
            layout: Layout { size: 0, align: MIN_COMMAND_QUEUE_ALIGN },
            start: 0,
            end: 0,
            owned: false,
            caller: MaybeLocation::Off,
            warn_on_unapplied: true,
        }
    }

    /// Creates an empty queue that does not warn when it is dropped.
    pub fn silent() -> (queue: Self)
        ensures
            queue.wf(),
            queue.records@.len() == 0,
            queue.layout == (Layout { size: 0, align: MIN_COMMAND_QUEUE_ALIGN }),
            queue.start == 0,
            queue.end == 0,
            !queue.owned,
            queue.caller is Off,
            !queue.warn_on_unapplied,
    {
        let mut queue = Self::new();
        queue.warn_on_unapplied = false;
        queue
    }

    /// Ensures that the buffer has room for a value with the given layout after the
    /// current frame.
    pub fn reserve(&mut self, layout: Layout)
        requires
            old(self).wf(),
            layout.wf(),
            can_reserve(old(self).layout, old(self).end as int, layout),
        ensures
            final(self).wf(),
            final(self).layout == layout_after(old(self).layout, old(self).end as int, layout),
            final(self).owned == (old(self).owned || allocates(
                old(self).layout,
                old(self).end as int,
                layout,
            )),
            final(self).records@ == old(self).records@,
            final(self).end == old(self).end,
            final(self).same_settings(*old(self)),
            final(self).end + layout.size <= final(self).layout.size,
            layout.align <= final(self).layout.align,
            old(self).layout.size <= final(self).layout.size,
            old(self).layout.align <= final(self).layout.align,
    {
        // Skip the check of the alignment if it is not above the least one.
        if layout.align > MIN_COMMAND_QUEUE_ALIGN && layout.align > self.layout.align
            || self.layout.size - self.end < layout.size {
            self.do_reserve(layout);
        }
    }

    /// Makes a buffer with room for a value with the given layout after the current
    /// frame.
    fn do_reserve(&mut self, layout: Layout)
        requires
            old(self).wf(),
            layout.wf(),
            must_grow(old(self).layout, old(self).end as int, layout),
            can_reserve(old(self).layout, old(self).end as int, layout),
        ensures
            final(self).wf(),
            final(self).layout == layout_after(old(self).layout, old(self).end as int, layout),
            final(self).owned == (old(self).owned || allocates(
                old(self).layout,
                old(self).end as int,
                layout,
            )),
            final(self).records@ == old(self).records@,
            final(self).end == old(self).end,
            final(self).same_settings(*old(self)),
            final(self).end + layout.size <= final(self).layout.size,
            layout.align <= final(self).layout.align,
            old(self).layout.size <= final(self).layout.size,
            old(self).layout.align <= final(self).layout.align,
    {
        if self.layout.size == 0 && layout.size == 0 {
            // Allocate nothing, but see to the alignment.
            if layout.align > self.layout.align {
                self.layout = layout;
            }
            return;
        }
        proof {
            crate::layout::round_up_is_least(self.layout.size as int, self.layout.align as int);
            crate::layout::round_up_is_least(layout.size as int, layout.align as int);
        }
        let desired_size: usize = self.end + layout.size;
        let new_size: usize = if desired_size <= self.layout.size {
            self.layout.size
        } else if desired_size <= self.layout.size * 2 {
            self.layout.size * 2
        } else {
            desired_size
        };
        let new_align: usize = if self.layout.align >= layout.align {
            self.layout.align
        } else {
            layout.align
        };
        proof {
            crate::layout::round_up_is_least(new_size as int, new_align as int);
        }
        // Only the records of the current frame go to the new buffer. An old buffer
        // that is borrowed stays with the frame that owns it.
        self.layout = Layout { size: new_size, align: new_align }.pad_to_align();
        self.owned = true;
    }

    /// Writes a record at the end of the current frame.
    fn write_record(&mut self, record: Record<C>)
        requires
            old(self).placed(),
            record.wf(old(self).layout.align as int),
            record.start == old(self).end,
            record.end <= old(self).layout.size,
        ensures
            final(self).placed(),
            final(self).records@ == old(self).records@.push(record),
            final(self).end == record.end,
            final(self).layout == old(self).layout,
            final(self).owned == old(self).owned,
            final(self).same_settings(*old(self)),
    {
        self.end = record.end;
        self.records.push_back(record);
    }

    /// Writes a record of another buffer, with the given alignment, at an offset that is a
    /// multiple of it.
    fn write_moved_record(&mut self, record: Record<C>, base: usize, align: usize)
        requires
            old(self).placed(),
            record.wf(align as int),
            base as int % align as int == 0,
            base as int % META_ALIGN as int == 0,
            crate::layout::power_of_two(align as int),
            align <= old(self).layout.align,
            base + record.start == old(self).end,
            base + record.end <= old(self).layout.size,
        ensures
            final(self).placed(),
            final(self).records@ == old(self).records@.push(moved_record(record, base as int)),
            final(self).end == base + record.end,
            final(self).layout == old(self).layout,
            final(self).owned == old(self).owned,
            final(self).same_settings(*old(self)),
    {
        proof {
            moved_record_is_placed(record, base as int, align as int);
        }
        let moved = Record {
            start: base + record.start,
            end: base + record.end,
            layout: record.layout,
            command: record.command,
        };
        proof {
            assert(moved == moved_record(record, base as int));
            looser_align(moved, align as int, self.layout.align as int);
        }
        self.write_record(moved);
    }

    /// Appends a command whose data has the given layout.
    pub fn push_with_layout(&mut self, command: C, layout: Layout)
        requires
            old(self).wf(),
            value_layout(layout),
            record_fits(layout),
            can_reserve(old(self).layout, old(self).end as int, record_layout_spec(layout)),
        ensures
            final(self).wf(),
            final(self).records@ == old(self).records@.push(
                Record {
                    start: old(self).end,
                    end: final(self).end,
                    layout,
                    command: Some(command),
                },
            ),
            final(self).end == record_end(old(self).end as int, layout),
            final(self).layout == layout_after(
                old(self).layout,
                old(self).end as int,
                record_layout_spec(layout),
            ),
            final(self).owned == (old(self).owned || allocates(
                old(self).layout,
                old(self).end as int,
                record_layout_spec(layout),
            )),
            final(self).same_settings(*old(self)),
            final(self).commands() == old(self).commands().push(command),
            old(self).layout.size <= final(self).layout.size,
    {
        proof {
            frame_end_is_aligned(*self);
            record_placement(self.end as int, layout);
        }
        // Reserve enough for both the metadata and the command.
        self.reserve(record_layout(layout));
        proof {
            crate::layout::round_up_is_least(self.layout.size as int, self.layout.align as int);
        }
        let start: usize = self.end;
        let end: usize = advance_to_command_end(start, layout);
        self.write_record(Record { start, end, layout, command: Some(command) });
        proof {
            assert(self.records@.drop_last() =~= old(self).records@);
        }
    }

    /// Takes all commands from another queue and appends them to this one.
    pub fn append(&mut self, other: &mut CommandQueue<C>)
        requires
            old(self).wf(),
            old(other).wf(),
            can_append(*old(self), *old(other)),
        ensures
            final(self).wf(),
            final(other).wf(),
            final(self).commands() == old(self).commands() + old(other).commands(),
            final(other).commands() == Seq::<C>::empty(),
            appended(*old(self), *old(other), *final(self), *final(other)),
    {
        // Do not even reserve space for padding if there is nothing to take.
        if other.end == 0 {
            proof {
                assert(other.records@.len() == 0) by {
                    if other.records@.len() > 0 {
                        let last = other.records@.len() - 1;
                        assert(other.records@[last].wf(other.layout.align as int));
                    }
                }
                assert(other.records@ =~= Seq::<Record<C>>::empty());
                assert(self.commands() + other.commands() =~= self.commands());
            }
            return;
        }
        proof {
            frame_end_is_aligned(*self);
            append_fits(self.end as int, other.layout);
        }
        // Reserve enough for the other queue and a record that aligns it.
        self.reserve(append_request(other.layout));
        proof {
            crate::layout::round_up_is_least(self.layout.size as int, self.layout.align as int);
            crate::layout::round_up_is_least(
                2 * META_SIZE + other.layout.align - META_ALIGN,
                other.layout.align as int,
            );
        }
        let align: usize = other.layout.align;
        let ghost before = self.records@;
        if self.end % align != 0 {
            let padding_end: usize = round_up_to(
                advance_to_command_end(self.end, Layout { size: META_SIZE, align: META_ALIGN }),
                align,
            );
            self.write_record(
                Record {
                    start: self.end,
                    end: padding_end,
                    layout: Layout { size: META_SIZE, align: META_ALIGN },
                    command: None,
                },
            );
        }
        let base: usize = self.end;
        proof {
            assert(commands_of(self.records@) == commands_of(before)) by {
                if self.records@.len() > before.len() {
                    assert(self.records@.drop_last() =~= before);
                }
            }
        }
        let ghost kept = self.records@;
        let ghost taken = other.records@;
        assert(kept =~= before + padding_before(old(self).end as int, align as int));
        self.take_records(&mut other.records, base, align, Ghost(other.end as int));
        other.end = 0;
        proof {
            assert(taken.len() > 0);
            assert(other.records@ =~= Seq::<Record<C>>::empty());
            assert(self.records@.last() == moved_record(taken.last(), base as int));
            commands_concat(kept, moved_records(taken, base as int));
            commands_moved(taken, base as int);
        }
    }

    /// Writes the records of another buffer, with the given alignment, at an offset that is a
    /// multiple of it.
    #[verifier::spinoff_prover]
    #[verifier::rlimit(40)]
    fn take_records(
        &mut self,
        records: &mut VecDeque<Record<C>>,
        base: usize,
        align: usize,
        Ghost(length): Ghost<int>,
    )
        requires
            old(self).placed(),
            old(self).end == base,
            base as int % align as int == 0,
            base as int % META_ALIGN as int == 0,
            crate::layout::power_of_two(align as int),
            align <= old(self).layout.align,
            base + length <= old(self).layout.size,
            contiguous(old(records)@, 0, length),
            forall|i: int|
                0 <= i < old(records)@.len() ==> (#[trigger] old(records)@[i]).wf(align as int),
        ensures
            final(self).placed(),
            final(self).records@ == old(self).records@ + moved_records(
                old(records)@,
                base as int,
            ),
            final(self).end == base + length,
            final(self).layout == old(self).layout,
            final(self).owned == old(self).owned,
            final(self).same_settings(*old(self)),
            final(records)@.len() == 0,
    {
        let ghost kept = self.records@;
        let ghost taken = records@;
        let ghost mut n: int = 0;
        assert(kept + moved_records(taken.take(0), base as int) =~= kept);
        assert(taken.skip(0) =~= taken);
        while records.len() > 0
            invariant
                0 <= n <= taken.len(),
                records@ == taken.skip(n),
                self.placed(),
                self.layout == old(self).layout,
                self.owned == old(self).owned,
                self.same_settings(*old(self)),
                self.records@ == kept + moved_records(taken.take(n), base as int),
                self.end == base + (if n == 0 {
                    0
                } else {
                    taken[n - 1].end as int
                }),
                base as int % align as int == 0,
                base as int % META_ALIGN as int == 0,
                crate::layout::power_of_two(align as int),
                align <= self.layout.align,
                base + length <= self.layout.size,
                contiguous(taken, 0, length),
                forall|i: int| 0 <= i < taken.len() ==> (#[trigger] taken[i]).wf(align as int),
            decreases records@.len(),
        {
            match records.pop_front() {
                Some(record) => {
                    proof {
                        next_record(taken, length, align as int, n);
                        assert(record == taken[n]);
                    }
                    self.write_moved_record(record, base, align);
                    proof {
                        assert(moved_records(taken.take(n + 1), base as int) =~= moved_records(
                            taken.take(n),
                            base as int,
                        ).push(moved_record(taken[n], base as int)));
                        assert(self.records@ =~= kept + moved_records(
                            taken.take(n + 1),
                            base as int,
                        ));
                        assert(records@ =~= taken.skip(n + 1));
                        n = n + 1;
                    }
                },
                None => {},
            }
        }
        assert(taken.take(n) =~= taken);
        assert(kept + moved_records(taken, base as int) =~= self.records@);
    }

    /// Returns whether there are no commands in the queue.
    pub fn is_empty(&self) -> (empty: bool)
        requires
            self.wf(),
        ensures
            empty == (self.end == self.start),
            empty <==> self.commands() == Seq::<C>::empty(),
            empty <==> self.records@.len() == 0,
    {
        proof {
            if self.records@.len() > 0 {
                let last = self.records@.len() - 1;
                assert(self.commands().len() > 0);
                assert(self.records@[0].wf(self.layout.align as int));
                record_end_within(
                    self.records@,
                    self.start as int,
                    self.end as int,
                    self.layout.align as int,
                    0,
                );
            }
        }
        self.end == self.start
    }

    /// Silences the warning about commands that are dropped before they are applied.
    pub fn silence_drop_warning(&mut self)
        ensures
            *final(self) == (CommandQueue { warn_on_unapplied: false, ..*old(self) }),
    {
        self.warn_on_unapplied = false;
    }

    /// Returns whether dropping this queue calls for a warning.
    pub fn warns_on_drop(&self) -> (warns: bool)
        requires
            self.wf(),
        ensures
            warns == self.warns(),
    {
        !self.is_empty() && self.warn_on_unapplied
    }
}

/// Whether the layout for the record of a command can be formed.
pub open spec fn record_fits(command: Layout) -> bool {
    record_size(command) <= isize::MAX
}

/// Returns the layout that is enough for the record of a command.
pub fn record_layout(command: Layout) -> (layout: Layout)
    requires
        value_layout(command),
        record_fits(command),
    ensures
        layout == record_layout_spec(command),
        layout.wf(),
{
    proof {
        crate::layout::small_powers_of_two();
        crate::layout::round_up_is_least(command.size as int, command.align as int);
        crate::layout::round_up_is_least(META_SIZE + command.size, META_ALIGN as int);
        if command.align <= META_ALIGN {
            let size = record_size(command);
            crate::layout::round_up_unique(size, META_ALIGN as int, size);
        } else {
            let size = record_size(command);
            vstd::arithmetic::div_mod::lemma_mod_self_0(command.align as int);
            crate::layout::sum_of_multiples(
                command.align as int,
                command.size as int,
                command.align as int,
            );
            crate::layout::round_up_unique(size, command.align as int, size);
        }
    }
    if command.align <= META_ALIGN {
        Layout { size: round_up_to(META_SIZE + command.size, META_ALIGN), align: META_ALIGN }
    } else {
        Layout { size: command.align + command.size, align: command.align }
    }
}

/// Advances an offset from the start of the record of a command to its end.
pub fn advance_to_command_end(start: usize, command: Layout) -> (end: usize)
    requires
        value_layout(command),
        start as int % META_ALIGN as int == 0,
        start + record_size(command) <= isize::MAX,
    ensures
        end == record_end(start as int, command),
{
    proof {
        record_placement(start as int, command);
        crate::layout::round_up_is_least(META_SIZE + command.size, META_ALIGN as int);
    }
    if command.align <= META_ALIGN {
        // The start is aligned for the metadata, and so for the command.
        start + round_up_to(META_SIZE + command.size, META_ALIGN)
    } else {
        round_up_to(start + (META_SIZE + command.size), command.align)
    }
}

/// The record of a command stays within the space that is reserved for it, its end is
/// aligned for the metadata of the next record, and the command, which stands at the
/// end of the record, is aligned and does not overlap the metadata.
pub proof fn record_placement(start: int, command: Layout)
    requires
        value_layout(command),
        start % META_ALIGN as int == 0,
        start >= 0,
    ensures
        start < record_end(start, command) <= start + record_size(command),
        record_end(start, command) % META_ALIGN as int == 0,
        (record_end(start, command) - command.size) % command.align as int == 0,
        record_end(start, command) - command.size >= start + META_SIZE,
{
    let end = record_end(start, command);
    let align = command.align as int;
    let size = command.size as int;
    crate::layout::small_powers_of_two();
    if command.align <= META_ALIGN {
        let length = crate::layout::round_up(META_SIZE + size, META_ALIGN as int);
        crate::layout::round_up_is_least(META_SIZE + size, META_ALIGN as int);
        crate::layout::sum_of_multiples(start, length, META_ALIGN as int);
        crate::layout::multiple_of_larger_power(end, META_ALIGN as int, align);
        crate::layout::sum_of_multiples(end, size, align);
    } else {
        crate::layout::round_up_is_least(start + META_SIZE + size, align);
        crate::layout::multiple_of_larger_power(end, align, META_ALIGN as int);
        crate::layout::sum_of_multiples(end, size, align);
        // The end of the record is a multiple of the alignment, and so is its distance
        // from the next multiple at or after the start.
        let data = end - size;
        crate::layout::powers_of_two_divide(META_ALIGN as int, align);
        assert(data <= start + align) by {
            if data > start + align {
                // `data - align` would do, too.
                let less = end - align;
                vstd::arithmetic::div_mod::lemma_mod_self_0(align);
                crate::layout::sum_of_multiples(end, align, align);
                assert(data % 8 == 0) by {
                    crate::layout::multiple_of_larger_power(data, align, META_ALIGN as int);
                }
                assert(less >= start + META_SIZE + size);
            }
        }
    }
}

/// The end of the current frame is aligned for the metadata of a record.
pub proof fn frame_end_is_aligned<C>(queue: CommandQueue<C>)
    requires
        queue.wf(),
    ensures
        queue.end as int % META_ALIGN as int == 0,
{
    if queue.records@.len() > 0 {
        let last = queue.records@.len() - 1;
        assert(queue.records@[last].wf(queue.layout.align as int));
    }
}

/// A queue without commands has no records, and its frame is empty.
pub proof fn queue_without_commands<C>(queue: CommandQueue<C>)
    requires
        queue.wf(),
        queue.commands() == Seq::<C>::empty(),
    ensures
        queue.records@.len() == 0,
        queue.end == queue.start,
{
    if queue.records@.len() > 0 {
        assert(queue.commands().len() > 0);
    }
}

/// The records of a frame lie within it.
pub(crate) proof fn record_end_within<C>(
    records: Seq<Record<C>>,
    start: int,
    end: int,
    align: int,
    i: int,
)
    requires
        contiguous(records, start, end),
        0 <= i < records.len(),
        forall|k: int| 0 <= k < records.len() ==> (#[trigger] records[k]).wf(align),
    ensures
        start <= records[i].start,
        records[i].end <= end,
    decreases records.len(),
{
    assert(records[i].wf(align));
    start_within(records, start, end, align, i);
    end_within(records, start, end, align, i);
}

/// A record starts where the one before it ends, and ends within the frame.
proof fn next_record<C>(records: Seq<Record<C>>, length: int, align: int, n: int)
    requires
        contiguous(records, 0, length),
        0 <= n < records.len(),
        forall|k: int| 0 <= k < records.len() ==> (#[trigger] records[k]).wf(align),
    ensures
        records[n].wf(align),
        records[n].start == (if n == 0 {
            0
        } else {
            records[n - 1].end as int
        }),
        records[n].end <= length,
{
    assert(records[n].wf(align));
    if n > 0 {
        assert(records[n - 1].end == records[n].start);
    }
    record_end_within(records, 0, length, align, n);
}

proof fn start_within<C>(records: Seq<Record<C>>, start: int, end: int, align: int, i: int)
    requires
        contiguous(records, start, end),
        0 <= i < records.len(),
        forall|k: int| 0 <= k < records.len() ==> (#[trigger] records[k]).wf(align),
    ensures
        start <= records[i].start,
    decreases i,
{
    if i > 0 {
        start_within(records, start, end, align, i - 1);
        assert(records[i - 1].wf(align));
        assert(records[i - 1].end == records[i].start);
    }
}

proof fn end_within<C>(records: Seq<Record<C>>, start: int, end: int, align: int, i: int)
    requires
        contiguous(records, start, end),
        0 <= i < records.len(),
        forall|k: int| 0 <= k < records.len() ==> (#[trigger] records[k]).wf(align),
    ensures
        records[i].end <= end,
    decreases records.len() - i,
{
    if i < records.len() - 1 {
        end_within(records, start, end, align, i + 1);
        assert(records[i].end == records[i + 1].start);
        assert(records[i + 1].wf(align));
    }
}

/// A record that has been moved by an offset.
pub open spec fn moved_record<C>(record: Record<C>, offset: int) -> Record<C> {
    Record {
        start: (record.start + offset) as usize,
        end: (record.end + offset) as usize,
        ..record
    }
}

/// Records that have been moved by an offset.
pub open spec fn moved_records<C>(records: Seq<Record<C>>, offset: int) -> Seq<Record<C>> {
    Seq::new(records.len(), |i: int| moved_record(records[i], offset))
}

/// A record keeps its shape when it is moved by a multiple of an alignment that is not
/// below its own.
proof fn moved_record_is_placed<C>(record: Record<C>, offset: int, align: int)
    requires
        record.wf(align),
        0 <= offset,
        record.end + offset <= usize::MAX,
        offset % align == 0,
        offset % META_ALIGN as int == 0,
        crate::layout::power_of_two(align),
    ensures
        moved_record(record, offset).wf(align),
{
    crate::layout::sum_of_multiples(record.start as int, offset, META_ALIGN as int);
    crate::layout::sum_of_multiples(record.end as int, offset, META_ALIGN as int);
    if record.command is Some && record.layout.align > META_ALIGN {
        crate::layout::multiple_of_larger_power(offset, align, record.layout.align as int);
        crate::layout::round_up_shift(
            record.start + META_SIZE + record.layout.size,
            record.layout.align as int,
            offset,
        );
    }
}

proof fn looser_align<C>(record: Record<C>, align: int, larger: int)
    requires
        record.wf(align),
        align <= larger,
    ensures
        record.wf(larger),
{
}

pub proof fn commands_concat<C>(a: Seq<Record<C>>, b: Seq<Record<C>>)
    ensures
        commands_of(a + b) == commands_of(a) + commands_of(b),
    decreases b.len(),
{
    if b.len() == 0 {
        assert(a + b =~= a);
        assert(commands_of(a) + commands_of(b) =~= commands_of(a));
    } else {
        assert((a + b).drop_last() =~= a + b.drop_last());
        commands_concat(a, b.drop_last());
        match b.last().command {
            Some(command) => {
                assert(commands_of(a + b) =~= commands_of(a) + commands_of(b));
            },
            None => {},
        }
    }
}

proof fn commands_moved<C>(records: Seq<Record<C>>, offset: int)
    ensures
        commands_of(moved_records(records, offset)) == commands_of(records),
    decreases records.len(),
{
    if records.len() > 0 {
        assert(moved_records(records, offset).drop_last() =~= moved_records(
            records.drop_last(),
            offset,
        ));
        commands_moved(records.drop_last(), offset);
    }
}

/// The space that is enough to append a queue whose buffer has the given layout: a
/// record with the largest padding that may be needed to align the records of the
/// queue, and the queue itself.
pub open spec fn append_size(other: Layout) -> int {
    crate::layout::round_up(
        record_size(Layout { size: META_SIZE, align: META_ALIGN }) + other.align - META_ALIGN,
        other.align as int,
    ) + other.size
}

/// Whether a queue can be appended to another one: it is not that of a world that runs
/// commands, and the buffer that is needed can be allocated.
pub open spec fn can_append<C>(queue: CommandQueue<C>, other: CommandQueue<C>) -> bool {
    other.end != 0 ==> {
        &&& other.start == 0
        &&& append_request_spec(other.layout).wf()
        &&& append_size(other.layout) <= isize::MAX
        &&& can_reserve(queue.layout, queue.end as int, append_request_spec(other.layout))
    }
}

/// The layout that is enough to append a queue whose buffer has the given layout.
pub open spec fn append_request_spec(other: Layout) -> Layout {
    Layout { size: append_size(other) as usize, align: other.align }
}

/// Where the records of an appended queue begin: at the end of the frame if it is
/// aligned, or else at the next aligned offset after a record for padding.
pub open spec fn append_base(end: int, align: int) -> int {
    if end % align == 0 {
        end
    } else {
        crate::layout::round_up(
            record_end(end, Layout { size: META_SIZE, align: META_ALIGN }),
            align,
        )
    }
}

/// The record for padding that is needed before the records of an appended queue, if the end of
/// the frame is not aligned.
pub open spec fn padding_before<C>(end: int, align: int) -> Seq<Record<C>> {
    if end % align == 0 {
        Seq::empty()
    } else {
        seq![
            Record {
                start: end as usize,
                end: append_base(end, align) as usize,
                layout: Layout { size: META_SIZE, align: META_ALIGN },
                command: None,
            },
        ]
    }
}

/// Whether appending a queue to another one takes both to others: the records follow those that
/// were there, in their order, and the queue that was appended keeps its buffer and has no
/// records.
pub open spec fn appended<C>(
    queue: CommandQueue<C>,
    other: CommandQueue<C>,
    queue_after: CommandQueue<C>,
    other_after: CommandQueue<C>,
) -> bool {
    let align = other.layout.align as int;
    let request = append_request_spec(other.layout);
    &&& queue_after.same_settings(queue)
    &&& other_after.same_settings(other)
    &&& other_after.layout == other.layout
    &&& other_after.owned == other.owned
    &&& other_after.end == 0
    &&& other_after.records@ == Seq::<Record<C>>::empty()
    &&& other.end == 0 ==> queue_after == queue && other_after == other
    &&& other.end != 0 ==> {
        &&& queue_after.layout == layout_after(queue.layout, queue.end as int, request)
        &&& queue_after.owned == (queue.owned || allocates(
            queue.layout,
            queue.end as int,
            request,
        ))
        &&& queue_after.end == append_base(queue.end as int, align) + other.end
        &&& queue_after.records@ == queue.records@ + padding_before(queue.end as int, align)
            + moved_records(other.records@, append_base(queue.end as int, align))
    }
}

/// Returns the layout that is enough to append a queue whose buffer has the given
/// layout.
fn append_request(other: Layout) -> (layout: Layout)
    requires
        other.wf(),
        other.align >= MIN_COMMAND_QUEUE_ALIGN,
        append_size(other) <= isize::MAX,
    ensures
        layout == append_request_spec(other),
{
    let record: Layout = Layout { size: META_SIZE, align: META_ALIGN };
    let max_padding: usize = other.align - META_ALIGN;
    proof {
        crate::layout::round_up_is_least(
            record_size(record) + other.align - META_ALIGN,
            other.align as int,
        );
        assert(record_size(record) == 16);
    }
    let offset: usize = round_up_to(2 * META_SIZE + max_padding, other.align);
    Layout { size: offset + other.size, align: other.align }
}

/// A request that is met within a bound, with an alignment that the buffer has already,
/// leads to a buffer that is at most twice as large as the bound, but for its padding.
pub proof fn bounded_growth(layout: Layout, end: int, request: Layout, bound: int)
    requires
        layout.wf(),
        layout.align >= MIN_COMMAND_QUEUE_ALIGN,
        request.align <= MIN_COMMAND_QUEUE_ALIGN,
        0 <= end,
        end + request.size <= bound,
        2 * bound + layout.align <= isize::MAX,
    ensures
        can_reserve(layout, end, request),
        layout_after(layout, end, request).align == layout.align,
{
    if allocates(layout, end, request) {
        let grown = grown_size(layout, end, request);
        assert(grown <= 2 * bound);
        crate::layout::round_up_is_least(grown, layout.align as int);
    }
}

/// Appending stays within the space that is reserved for it.
proof fn append_fits(end: int, other: Layout)
    requires
        end >= 0,
        end % META_ALIGN as int == 0,
        other.wf(),
        other.align >= MIN_COMMAND_QUEUE_ALIGN,
    ensures
        end <= append_base(end, other.align as int),
        append_base(end, other.align as int) + other.size <= end + append_size(other),
        append_base(end, other.align as int) % other.align as int == 0,
        append_base(end, other.align as int) % META_ALIGN as int == 0,
        end % other.align as int != 0 ==> append_base(end, other.align as int) >= end + 16,
        record_size(Layout { size: META_SIZE, align: META_ALIGN }) == 16,
        value_layout(Layout { size: META_SIZE, align: META_ALIGN }),
        record_end(end, Layout { size: META_SIZE, align: META_ALIGN }) == end + 16,
{
    let align = other.align as int;
    crate::layout::small_powers_of_two();
    crate::layout::powers_of_two_divide(META_ALIGN as int, align);
    crate::layout::round_up_is_least(16 + align - META_ALIGN, align);
    if end % align != 0 {
        let base = crate::layout::round_up(end + 16, align);
        crate::layout::round_up_is_least(end + 16, align);
        crate::layout::multiple_of_larger_power(base, align, META_ALIGN as int);
        assert(base <= end + 16 + align - META_ALIGN) by {
            assert(base % 8 == 0);
            assert(align % 8 == 0);
        }
    } else {
        crate::layout::multiple_of_larger_power(end, align, META_ALIGN as int);
    }
}

} // verus!
