//! What holds of where the commands of a queue are placed.

use vstd::prelude::*;

use crate::layout::Layout;
use crate::world::command_queue::{
    CommandQueue, Record, META_ALIGN, META_SIZE, MIN_COMMAND_QUEUE_ALIGN,
};

verus! {

/// A record ends as early as it can: at no earlier end would the next record be aligned, and the
/// command be aligned and not overlap the metadata.
pub proof fn record_ends_early(start: int, command: Layout, end: int)
    requires
        crate::world::command_queue::value_layout(command),
        0 <= start,
        start % META_ALIGN as int == 0,
        end % META_ALIGN as int == 0,
        (end - command.size) % command.align as int == 0,
        end - command.size >= start + META_SIZE,
    ensures
        crate::world::command_queue::record_end(start, command) <= end,
{
    let align = command.align as int;
    let size = command.size as int;
    crate::layout::small_powers_of_two();
    if command.align <= META_ALIGN {
        let length = crate::layout::round_up(META_SIZE + size, META_ALIGN as int);
        crate::layout::round_up_is_least(META_SIZE + size, META_ALIGN as int);
        assert((end - start) % 8 == 0);
        assert(length % 8 == 0);
    } else {
        crate::layout::round_up_is_least(start + META_SIZE + size, align);
        crate::layout::sum_of_multiples(end - size, size, align);
    }
}

/// No less space would be enough for the record of a command wherever it starts: at the start of
/// the buffer it takes all of it.
pub proof fn record_may_need_all_space(command: Layout)
    requires
        crate::world::command_queue::value_layout(command),
        crate::world::command_queue::record_fits(command),
    ensures
        ({
            let layout = crate::world::command_queue::record_layout_spec(command);
            &&& crate::world::command_queue::record_end(0, command) == layout.size
            &&& layout.size <= isize::MAX
            &&& layout.align >= META_ALIGN && layout.align >= command.align
            &&& layout.align == META_ALIGN || layout.align == command.align
        }),
{
    let align = command.align as int;
    let size = command.size as int;
    crate::layout::small_powers_of_two();
    crate::layout::round_up_is_least(META_SIZE + size, META_ALIGN as int);
    if command.align > META_ALIGN {
        crate::layout::powers_of_two_divide(META_ALIGN as int, align);
        vstd::arithmetic::div_mod::lemma_mod_self_0(align);
        crate::layout::sum_of_multiples(align, size, align);
        crate::layout::round_up_unique(META_SIZE + size, align, align + size);
    }
}

/// A buffer that meets a request already stays as it is. Otherwise it gets the larger of the two
/// alignments and as much more space as is needed. If there is not enough space, it gets at least
/// twice as much. What is added above that is less than the alignment.
pub proof fn buffer_grows_as_needed(layout: Layout, end: int, request: Layout)
    requires
        layout.wf(),
        request.wf(),
        layout.align >= MIN_COMMAND_QUEUE_ALIGN,
        0 <= end <= layout.size,
        crate::world::command_queue::can_reserve(layout, end, request),
    ensures
        ({
            let after = crate::world::command_queue::layout_after(layout, end, request);
            let met = request.align <= layout.align && end + request.size <= layout.size;
            &&& met ==> after == layout
            &&& after.align >= layout.align && after.align >= request.align
            &&& after.align == layout.align || after.align == request.align
            &&& after.size >= layout.size && after.size >= end + request.size
            &&& !met ==> after.size as int % after.align as int == 0
            &&& end + request.size <= layout.size ==> after.size < layout.size + after.align
            &&& layout.size < end + request.size <= 2 * layout.size ==> 2 * layout.size
                <= after.size < 2 * layout.size + after.align
            &&& 2 * layout.size < end + request.size ==> after.size < end + request.size
                + after.align
            &&& crate::world::command_queue::allocates(layout, end, request) <==> !met && (
            layout.size > 0 || request.size > 0)
        }),
{
    let align = if layout.align >= request.align {
        layout.align as int
    } else {
        request.align as int
    };
    crate::layout::round_up_is_least(
        crate::world::command_queue::grown_size(layout, end, request),
        align,
    );
    if layout.size == 0 && request.size == 0 {
        crate::layout::round_up_unique(0, align, 0);
    }
}

/// The records of a queue that is appended begin where the frame ends, if that is aligned for them.
/// Otherwise they begin at the first aligned offset after a record with metadata and as much
/// padding.
pub proof fn appended_records_begin_early(end: int, align: int, base: int)
    requires
        0 <= end,
        end % META_ALIGN as int == 0,
        align >= MIN_COMMAND_QUEUE_ALIGN,
        crate::layout::power_of_two(align),
        base % align == 0,
        base == end || base >= end + 2 * META_SIZE,
    ensures
        crate::world::command_queue::append_base(end, align) <= base,
        crate::world::command_queue::append_base(end, align) % align == 0,
        crate::world::command_queue::append_base(end, align) == end
            || crate::world::command_queue::append_base(end, align) >= end + 2 * META_SIZE,
{
    if end % align != 0 {
        crate::layout::small_powers_of_two();
        crate::layout::round_up_unique(16, META_ALIGN as int, 16);
        crate::layout::round_up_is_least(end + 16, align);
    }
}

/// The space that is reserved to append a queue is that of its buffer and twice its alignment.
pub proof fn appending_reserves_two_alignments(other: Layout)
    requires
        other.wf(),
        other.align >= MIN_COMMAND_QUEUE_ALIGN,
    ensures
        crate::world::command_queue::append_size(other) == other.size + 2 * other.align,
{
    let align = other.align as int;
    crate::layout::small_powers_of_two();
    crate::layout::round_up_unique(16, META_ALIGN as int, 16);
    vstd::arithmetic::div_mod::lemma_mod_self_0(align);
    crate::layout::sum_of_multiples(align, align, align);
    crate::layout::round_up_unique(align + 8, align, 2 * align);
}

/// Appending a queue keeps the records of both, moves those of the appended queue by the same
/// distance, and adds at most one record without a command. The queue that was appended keeps its
/// buffer.
pub proof fn appending_moves_records<C>(
    queue: CommandQueue<C>,
    other: CommandQueue<C>,
    queue_after: CommandQueue<C>,
    other_after: CommandQueue<C>,
    i: int,
)
    requires
        queue.wf(),
        queue_after.wf(),
        other.wf(),
        crate::world::command_queue::appended(queue, other, queue_after, other_after),
    ensures
        other_after.records@.len() == 0,
        other_after.end == 0,
        other_after.start == other.start,
        other_after.layout == other.layout,
        other_after.owned == other.owned,
        other_after.caller == other.caller,
        other_after.warn_on_unapplied == other.warn_on_unapplied,
        queue_after.start == queue.start,
        queue_after.caller == queue.caller,
        queue_after.warn_on_unapplied == queue.warn_on_unapplied,
        other.end == 0 ==> queue_after == queue,
        other.end != 0 ==> ({
            let base = queue_after.end - other.end;
            let n = queue.records@.len() as int;
            let pad: int = if base == queue.end {
                0
            } else {
                1
            };
            &&& base >= queue.end
            &&& base % other.layout.align as int == 0
            &&& queue_after.records@.len() == n + pad + other.records@.len()
            &&& 0 <= i < n ==> queue_after.records@[i] == queue.records@[i]
            &&& pad == 1 ==> {
                &&& queue_after.records@[n].command is None
                &&& queue_after.records@[n].start == queue.end
                &&& queue_after.records@[n].end == base
            }
            &&& 0 <= i < other.records@.len() ==> {
                &&& queue_after.records@[n + pad + i].command == other.records@[i].command
                &&& queue_after.records@[n + pad + i].layout == other.records@[i].layout
                &&& queue_after.records@[n + pad + i].start == base + other.records@[i].start
                &&& queue_after.records@[n + pad + i].end == base + other.records@[i].end
            }
        }),
{
    if other.end != 0 {
        let align = other.layout.align as int;
        let end = queue.end as int;
        let base = crate::world::command_queue::append_base(end, align);
        crate::world::command_queue::frame_end_is_aligned(queue);
        if end % align != 0 {
            crate::layout::small_powers_of_two();
            crate::layout::round_up_unique(16, META_ALIGN as int, 16);
            crate::layout::round_up_is_least(end + 16, align);
        }
        let pads = crate::world::command_queue::padding_before::<C>(end, align);
        let n = queue.records@.len() as int;
        if 0 <= i < other.records@.len() {
            assert(queue_after.records@[n + pads.len() + i]
                == crate::world::command_queue::moved_record(other.records@[i], base));
            crate::world::command_queue::record_end_within(
                other.records@,
                other.start as int,
                other.end as int,
                align,
                i,
            );
            assert(other.records@[i].wf(align));
        }
        if pads.len() == 1 {
            assert(queue_after.records@[n] == pads[0]);
        }
    }
}

/// The records of a queue follow each other without overlapping. They fill the frame, which lies in
/// the buffer.
pub proof fn records_fill_the_frame<C>(queue: CommandQueue<C>, i: int, j: int)
    requires
        queue.wf(),
        0 <= i < j < queue.records@.len(),
    ensures
        queue.start <= queue.records@[i].start < queue.records@[i].end,
        queue.records@[i].end <= queue.records@[j].start,
        queue.records@[j].end <= queue.end <= queue.layout.size,
        j == i + 1 ==> queue.records@[i].end == queue.records@[j].start,
        queue.records@[0].start == queue.start,
        queue.records@.last().end == queue.end,
    decreases j - i,
{
    let align = queue.layout.align as int;
    crate::world::command_queue::record_end_within(
        queue.records@,
        queue.start as int,
        queue.end as int,
        align,
        i,
    );
    crate::world::command_queue::record_end_within(
        queue.records@,
        queue.start as int,
        queue.end as int,
        align,
        j,
    );
    assert(queue.records@[i].wf(align));
    assert(queue.records@[i].end == queue.records@[i + 1].start);
    if j > i + 1 {
        records_fill_the_frame(queue, i + 1, j);
    }
}

/// The data of a command in a queue is aligned, stands at the end of its record, and does not
/// overlap the metadata. The buffer is aligned for it.
pub proof fn commands_are_aligned<C>(queue: CommandQueue<C>, i: int)
    requires
        queue.wf(),
        0 <= i < queue.records@.len(),
        queue.records@[i].command is Some,
    ensures
        ({
            let record = queue.records@[i];
            let data = record.end - record.layout.size;
            &&& record.start as int % META_ALIGN as int == 0
            &&& data >= record.start + META_SIZE
            &&& data % record.layout.align as int == 0
            &&& record.layout.align <= queue.layout.align
        }),
{
    let record = queue.records@[i];
    assert(record.wf(queue.layout.align as int));
    crate::world::command_queue::record_placement(record.start as int, record.layout);
}

/// The commands of some records are those of the records that have one, in their order.
pub proof fn commands_are_those_of_the_records<C>(records: Seq<Record<C>>)
    ensures
        crate::world::command_queue::commands_of(records) == records.filter(
            |record: Record<C>| record.command is Some,
        ).map_values(|record: Record<C>| record.command->0),
    decreases records.len(),
{
    reveal(Seq::filter);
    if records.len() > 0 {
        commands_are_those_of_the_records(records.drop_last());
    }
}

/// Dropping a queue calls for a warning exactly if it has commands and the warning is not silenced.
pub proof fn queue_with_commands_warns<C>(queue: CommandQueue<C>)
    requires
        queue.wf(),
    ensures
        queue.warns() <==> queue.warn_on_unapplied && exists|i: int|
            0 <= i < queue.records@.len() && (#[trigger] queue.records@[i]).command is Some,
{
    if queue.records@.len() > 0 {
        let last = queue.records@.len() - 1;
        assert(queue.records@[last] == queue.records@.last());
        assert(queue.records@[last].wf(queue.layout.align as int));
        crate::world::command_queue::record_end_within(
            queue.records@,
            queue.start as int,
            queue.end as int,
            queue.layout.align as int,
            last,
        );
    }
}

} // verus!
