//! Properties of extraction that hold for every input.
use crate::error::PayloadError;
use crate::extract::{extract_outcome, first_named, selected_index};
use crate::header::{header_spec, magic, HEADER_LEN};
use crate::image::{apply_spec, decoded, replay_prefix, replay_spec, write_at, zero_fill, zeros};
use crate::manifest::{manifest_spec, Extent, OpType, OperationModel, PartitionModel};
use crate::plan::{
    lemma_plan_err_extends, precedes,
    cursor_after, extent_range, is_replay_order, listed, plan_prefix, plan_spec, step_spec,
    zero_ranges, ActionModel, ByteRange, StepModel,
};
use crate::select::{boot_name, has_named, init_boot_name};
use vstd::prelude::*;

verus! {

/// The byte offset at which a write step puts its data.
pub open spec fn write_offset(st: StepModel) -> int {
    match st.action {
        ActionModel::Write(o) => o as int,
        _ => 0,
    }
}

pub open spec fn disjoint(a: int, a_len: int, b: int, b_len: int) -> bool {
    a + a_len <= b || b + b_len <= a
}

/// The bytes that step `st` read stand in `img` at the offset where it writes.
pub open spec fn kept(data: Seq<u8>, st: StepModel, img: Seq<u8>) -> bool {
    &&& write_offset(st) + st.data_length <= img.len()
    &&& img.subrange(write_offset(st), write_offset(st) + st.data_length) == data.subrange(
        st.data_offset as int,
        st.data_offset + st.data_length,
    )
}

/// Replaying write steps whose target ranges do not overlap leaves, at each step's target
/// range, exactly the bytes that step read.
pub proof fn lemma_disjoint_writes_kept(data: Seq<u8>, steps: Seq<StepModel>, n: int, img: Seq<u8>)
    requires
        0 <= n <= steps.len(),
        replay_prefix(data, steps, n) == Ok::<Seq<u8>, PayloadError>(img),
        forall|t: int| 0 <= t < n ==> steps[t].action is Write,
        forall|t: int, u: int|
            0 <= t < u < n ==> disjoint(
                write_offset(steps[t]),
                steps[t].data_length as int,
                write_offset(steps[u]),
                steps[u].data_length as int,
            ),
    ensures
        forall|t: int| 0 <= t < n ==> #[trigger] kept(data, steps[t], img),
    decreases n,
{
    if n > 0 {
        let prev = replay_prefix(data, steps, n - 1)->Ok_0;
        lemma_disjoint_writes_kept(data, steps, n - 1, prev);
        let st = steps[n - 1];
        let o = write_offset(st);
        let chunk = data.subrange(st.data_offset as int, st.data_offset + st.data_length);
        assert(img == write_at(prev, o, chunk));
        assert(chunk.len() == st.data_length);
        assert(img.len() >= prev.len() && img.len() >= o + st.data_length);
        assert forall|t: int| 0 <= t < n implies #[trigger] kept(data, steps[t], img) by {
            let ot = write_offset(steps[t]);
            let lt = steps[t].data_length as int;
            if t < n - 1 {
                assert(kept(data, steps[t], prev));
                assert(disjoint(ot, lt, o, st.data_length as int));
                assert(chunk.len() == st.data_length);
                assert(img.subrange(ot, ot + lt) =~= prev.subrange(ot, ot + lt));
            } else {
                assert(img.subrange(ot, ot + lt) =~= chunk);
            }
        }
    }
}

/// Every step that a successful plan holds comes from its operation, at the cursor that the
/// steps before it left.
pub proof fn lemma_plan_steps(ops: Seq<OperationModel>, order: Seq<usize>, bs: u64, n: int)
    requires
        0 <= n <= order.len(),
        plan_prefix(ops, order, bs, n) is Ok,
    ensures
        ({
            let steps = plan_prefix(ops, order, bs, n)->Ok_0;
            &&& steps.len() == n
            &&& forall|t: int|
                0 <= t < n ==> step_spec(
                    ops[order[t] as int],
                    order[t],
                    bs,
                    cursor_after(steps.take(t)),
                ) == Ok::<StepModel, PayloadError>(#[trigger] steps[t])
        }),
    decreases n,
{
    if n > 0 {
        lemma_plan_steps(ops, order, bs, n - 1);
        let prev = plan_prefix(ops, order, bs, n - 1)->Ok_0;
        let steps = plan_prefix(ops, order, bs, n)->Ok_0;
        assert forall|t: int|
            0 <= t < n implies step_spec(
                ops[order[t] as int],
                order[t],
                bs,
                cursor_after(steps.take(t)),
            ) == Ok::<StepModel, PayloadError>(#[trigger] steps[t]) by {
            if t < n - 1 {
                assert(steps.take(t) =~= prev.take(t));
            } else {
                assert(steps.take(t) =~= prev);
            }
        }
    }
}

/// The byte offset of an operation's first destination extent.
pub open spec fn first_target(op: OperationModel, bs: u64) -> int {
    match op.dst_extents[0].start_block {
        Some(sb) => sb * bs,
        None => 0,
    }
}

/// `st` writes the data of `op` verbatim at its first destination extent.
pub open spec fn write_of(op: OperationModel, st: StepModel, bs: u64) -> bool {
    &&& st.action is Write
    &&& write_offset(st) == first_target(op, bs)
    &&& op.data_offset == Some(st.data_offset)
    &&& op.data_length == Some(st.data_length)
}

/// The operation's source bytes stand in `img` at its first destination extent.
pub open spec fn lands_in_place(op: OperationModel, bs: u64, data: Seq<u8>, img: Seq<u8>) -> bool {
    let off = op.data_offset->Some_0 as int;
    let len = op.data_length->Some_0 as int;
    &&& op.data_offset is Some && op.data_length is Some
    &&& first_target(op, bs) + len <= img.len()
    &&& img.subrange(first_target(op, bs), first_target(op, bs) + len) == data.subrange(
        off,
        off + len,
    )
}

/// When every operation of a partition is a plain replace and their destination ranges do not
/// overlap, each operation's destination range in the extracted image holds exactly its source
/// bytes, whatever order the operations are listed in.
pub proof fn lemma_replace_operations_land_in_place(
    ops: Seq<OperationModel>,
    order: Seq<usize>,
    bs: u64,
    data: Seq<u8>,
    img: Seq<u8>,
)
    requires
        is_replay_order(ops, order),
        forall|k: int| 0 <= k < ops.len() ==> (#[trigger] ops[k]).op_type == OpType::Replace,
        forall|k: int, l: int|
            0 <= k < ops.len() && 0 <= l < ops.len() && k != l && ops[k].data_length is Some
                && ops[l].data_length is Some ==> disjoint(
                first_target(ops[k], bs),
                ops[k].data_length->Some_0 as int,
                first_target(ops[l], bs),
                ops[l].data_length->Some_0 as int,
            ),
        plan_spec(ops, order, bs) is Ok,
        replay_spec(data, plan_spec(ops, order, bs)->Ok_0) == Ok::<Seq<u8>, PayloadError>(img),
    ensures
        forall|k: int| 0 <= k < ops.len() ==> #[trigger] lands_in_place(ops[k], bs, data, img),
{
    let n = order.len() as int;
    let steps = plan_spec(ops, order, bs)->Ok_0;
    lemma_plan_steps(ops, order, bs, n);
    assert forall|t: int| 0 <= t < n implies write_of(ops[order[t] as int], #[trigger] steps[t], bs) by {
        assert(step_spec(ops[order[t] as int], order[t], bs, cursor_after(steps.take(t))) == Ok::<
            StepModel,
            PayloadError,
        >(steps[t]));
        assert(ops[order[t] as int].op_type == OpType::Replace);
    }
    lemma_disjoint_writes_kept(data, steps, n, img);
    assert forall|k: int| 0 <= k < ops.len() implies #[trigger] lands_in_place(
        ops[k],
        bs,
        data,
        img,
    ) by {
        assert(listed(order, k));
        let t = choose|t: int| 0 <= t < order.len() && order[t] == k;
        assert(kept(data, steps[t], img));
    }
}

/// Every byte of range `r` in `s` is zero.
pub open spec fn zeroed(s: Seq<u8>, r: ByteRange) -> bool {
    &&& r.offset + r.len <= s.len()
    &&& forall|k: int| r.offset <= k < r.offset + r.len ==> s[k] == 0u8
}

/// Zero-filling a list of ranges leaves every one of them zero, not only the first.
pub proof fn lemma_zero_fill_clears_all(img: Seq<u8>, rs: Seq<ByteRange>)
    ensures
        forall|i: int| 0 <= i < rs.len() ==> #[trigger] zeroed(zero_fill(img, rs), rs[i]),
    decreases rs.len(),
{
    if rs.len() > 0 {
        let prev_rs = rs.drop_last();
        lemma_zero_fill_clears_all(img, prev_rs);
        let prev = zero_fill(img, prev_rs);
        let last = rs.last();
        let out = zero_fill(img, rs);
        assert(out == write_at(prev, last.offset as int, zeros(last.len as nat)));
        assert forall|i: int| 0 <= i < rs.len() implies #[trigger] zeroed(out, rs[i]) by {
            if i < rs.len() - 1 {
                assert(rs[i] == prev_rs[i]);
                assert(zeroed(prev, prev_rs[i]));
                assert forall|k: int| rs[i].offset <= k < rs[i].offset + rs[i].len implies out[k]
                    == 0u8 by {
                    assert(prev[k] == 0u8);
                }
            }
        }
    }
}

/// A successful list of zero ranges has one range per extent, each the extent's bytes.
pub proof fn lemma_zero_ranges_match(exts: Seq<Extent>, bs: u64)
    requires
        zero_ranges(exts, bs) is Ok,
    ensures
        zero_ranges(exts, bs)->Ok_0.len() == exts.len(),
        forall|i: int|
            0 <= i < exts.len() ==> extent_range(#[trigger] exts[i], bs) == Ok::<
                ByteRange,
                PayloadError,
            >(zero_ranges(exts, bs)->Ok_0[i]),
    decreases exts.len(),
{
    if exts.len() > 0 {
        lemma_zero_ranges_match(exts.drop_last(), bs);
        assert forall|i: int| 0 <= i < exts.len() implies extent_range(#[trigger] exts[i], bs)
            == Ok::<ByteRange, PayloadError>(zero_ranges(exts, bs)->Ok_0[i]) by {
            if i < exts.len() - 1 {
                assert(exts[i] == exts.drop_last()[i]);
            }
        }
    }
}

/// A ZERO operation that succeeds leaves every one of its destination extents zero-filled.
pub proof fn lemma_zero_operation_clears_every_extent(
    op: OperationModel,
    index: usize,
    bs: u64,
    cursor: u64,
    img: Seq<u8>,
    data: Seq<u8>,
    out: Seq<u8>,
)
    requires
        op.op_type == OpType::Zero,
        step_spec(op, index, bs, cursor) is Ok,
        apply_spec(img, step_spec(op, index, bs, cursor)->Ok_0.action, data) == Ok::<
            Seq<u8>,
            PayloadError,
        >(out),
    ensures
        forall|i: int|
            0 <= i < op.dst_extents.len() ==> {
                let e = #[trigger] op.dst_extents[i];
                &&& e.start_block is Some && e.num_blocks is Some
                &&& zeroed(
                    out,
                    ByteRange {
                        offset: (e.start_block->Some_0 * bs) as u64,
                        len: (e.num_blocks->Some_0 * bs) as u64,
                    },
                )
            },
{
    let rs = zero_ranges(op.dst_extents, bs)->Ok_0;
    lemma_zero_ranges_match(op.dst_extents, bs);
    lemma_zero_fill_clears_all(img, rs);
    assert forall|i: int| 0 <= i < op.dst_extents.len() implies {
        let e = #[trigger] op.dst_extents[i];
        &&& e.start_block is Some && e.num_blocks is Some
        &&& zeroed(
            out,
            ByteRange {
                offset: (e.start_block->Some_0 * bs) as u64,
                len: (e.num_blocks->Some_0 * bs) as u64,
            },
        )
    } by {
        assert(extent_range(op.dst_extents[i], bs) == Ok::<ByteRange, PayloadError>(rs[i]));
        assert(zeroed(zero_fill(img, rs), rs[i]));
    }
}

/// An operation whose data starts before the data that the operations ahead of it consumed
/// makes the whole plan fail as overlapping, whatever follows it.
pub proof fn lemma_overlap_rejected(ops: Seq<OperationModel>, order: Seq<usize>, bs: u64, n: int)
    requires
        0 <= n < order.len(),
        plan_prefix(ops, order, bs, n) is Ok,
        ops[order[n] as int].data_length is Some,
        ops[order[n] as int].data_offset is Some,
        ops[order[n] as int].data_offset->Some_0 < cursor_after(
            plan_prefix(ops, order, bs, n)->Ok_0,
        ),
    ensures
        plan_spec(ops, order, bs) == Err::<Seq<StepModel>, PayloadError>(
            PayloadError::OverlappingData,
        ),
{
    assert(plan_prefix(ops, order, bs, n + 1) == Err::<Seq<StepModel>, PayloadError>(
        PayloadError::OverlappingData,
    ));
    lemma_plan_err_extends(ops, order, bs, n + 1);
}

/// A container whose first four bytes are not the magic tag fails with that error, whatever
/// the bytes after them hold.
pub proof fn lemma_bad_magic_fails_first(
    p: Seq<u8>,
    name: Option<&str>,
    r: Result<(Seq<u8>, Seq<u8>), PayloadError>,
)
    requires
        p.len() >= 4,
        p.subrange(0, 4) != magic(),
    ensures
        extract_outcome(p, name, r) <==> r == Err::<(Seq<u8>, Seq<u8>), PayloadError>(
            PayloadError::InvalidMagic,
        ),
{
}

/// A well-formed manifest of a delta payload (minor version other than zero) fails with its
/// own error, before any operation is looked at.
pub proof fn lemma_delta_payload_refused(
    p: Seq<u8>,
    name: Option<&str>,
    r: Result<(Seq<u8>, Seq<u8>), PayloadError>,
)
    requires
        header_spec(p) is Ok,
        p.len() >= HEADER_LEN + header_spec(p)->Ok_0.manifest_len,
        manifest_spec(p.subrange(HEADER_LEN as int, HEADER_LEN + header_spec(p)->Ok_0.manifest_len))
            matches Some(m) && m.minor_version != 0,
    ensures
        extract_outcome(p, name, r) <==> r == Err::<(Seq<u8>, Seq<u8>), PayloadError>(
            PayloadError::DeltaPayload,
        ),
{
}

/// Without a name, "init_boot" is chosen whenever there is one, even beside "boot".
pub proof fn lemma_init_boot_preferred(ps: Seq<PartitionModel>)
    requires
        has_named(ps, init_boot_name()),
    ensures
        selected_index(ps, None) == first_named(ps, init_boot_name()),
        selected_index(ps, None) is Some,
{
}

/// Without a name and without "init_boot", "boot" is chosen if there is one; with neither,
/// nothing is.
pub proof fn lemma_boot_fallback(ps: Seq<PartitionModel>)
    requires
        !has_named(ps, init_boot_name()),
    ensures
        selected_index(ps, None) == first_named(ps, boot_name()),
        selected_index(ps, None) is Some <==> has_named(ps, boot_name()),
{
}

/// An operation that a plain replay can always apply: a replace with all of its fields present,
/// some data, and source and destination ranges that fit where they must.
pub open spec fn simple_replace(op: OperationModel, bs: u64, data_len: int) -> bool {
    &&& op.op_type == OpType::Replace
    &&& op.data_offset is Some
    &&& op.data_length is Some
    &&& op.data_length->Some_0 > 0
    &&& op.data_offset->Some_0 + op.data_length->Some_0 <= data_len
    &&& op.data_offset->Some_0 + op.data_length->Some_0 <= u64::MAX
    &&& op.dst_extents.len() > 0
    &&& op.dst_extents[0].start_block is Some
    &&& op.dst_extents[0].start_block->Some_0 * bs <= u64::MAX
    &&& first_target(op, bs) + op.data_length->Some_0 <= usize::MAX
}

/// The destination ranges of two operations do not overlap.
pub open spec fn targets_disjoint(a: OperationModel, b: OperationModel, bs: u64) -> bool {
    disjoint(
        first_target(a, bs),
        a.data_length->Some_0 as int,
        first_target(b, bs),
        b.data_length->Some_0 as int,
    )
}

/// The source ranges of two operations do not overlap.
pub open spec fn sources_disjoint(a: OperationModel, b: OperationModel) -> bool {
    disjoint(
        a.data_offset->Some_0 as int,
        a.data_length->Some_0 as int,
        b.data_offset->Some_0 as int,
        b.data_length->Some_0 as int,
    )
}

proof fn lemma_replace_plan_ok(
    ops: Seq<OperationModel>,
    order: Seq<usize>,
    bs: u64,
    data_len: int,
    n: int,
)
    requires
        is_replay_order(ops, order),
        0 <= n <= order.len(),
        forall|k: int| 0 <= k < ops.len() ==> #[trigger] simple_replace(ops[k], bs, data_len),
        forall|k: int, l: int|
            0 <= k < ops.len() && 0 <= l < ops.len() && k != l ==> sources_disjoint(
                #[trigger] ops[k],
                #[trigger] ops[l],
            ),
    ensures
        plan_prefix(ops, order, bs, n) is Ok,
        plan_prefix(ops, order, bs, n)->Ok_0.len() == n,
        n > 0 ==> cursor_after(plan_prefix(ops, order, bs, n)->Ok_0) == ops[order[n - 1] as int].data_offset->Some_0
            + ops[order[n - 1] as int].data_length->Some_0,
    decreases n,
{
    if n > 0 {
        lemma_replace_plan_ok(ops, order, bs, data_len, n - 1);
        let steps = plan_prefix(ops, order, bs, n - 1)->Ok_0;
        let op = ops[order[n - 1] as int];
        assert(simple_replace(op, bs, data_len));
        if n > 1 {
            let prev = ops[order[n - 2] as int];
            assert(precedes(ops, order[n - 2] as int, order[n - 1] as int));
            assert(order[n - 2] != order[n - 1]);
            assert(sources_disjoint(prev, op));
            assert(simple_replace(prev, bs, data_len));
        }
        let c = cursor_after(steps);
        assert(step_spec(op, order[n - 1], bs, c) is Ok);
    }
}

proof fn lemma_replace_replay_ok(data: Seq<u8>, steps: Seq<StepModel>, n: int)
    requires
        0 <= n <= steps.len(),
        forall|t: int|
            0 <= t < steps.len() ==> {
                &&& (#[trigger] steps[t]).action is Write
                &&& steps[t].data_offset + steps[t].data_length <= data.len()
                &&& write_offset(steps[t]) + steps[t].data_length <= usize::MAX
            },
    ensures
        replay_prefix(data, steps, n) is Ok,
    decreases n,
{
    if n > 0 {
        lemma_replace_replay_ok(data, steps, n - 1);
        let st = steps[n - 1];
        assert(st.action is Write);
    }
}

/// Extracting replace operations whose sources and destinations do not overlap always succeeds,
/// and each operation's destination range then holds exactly its source bytes, whatever order the
/// operations are listed in.
pub proof fn lemma_replace_operations_extract(
    ops: Seq<OperationModel>,
    order: Seq<usize>,
    bs: u64,
    data: Seq<u8>,
)
    requires
        is_replay_order(ops, order),
        forall|k: int| 0 <= k < ops.len() ==> #[trigger] simple_replace(ops[k], bs, data.len() as int),
        forall|k: int, l: int|
            0 <= k < ops.len() && 0 <= l < ops.len() && k != l ==> sources_disjoint(
                #[trigger] ops[k],
                #[trigger] ops[l],
            ) && targets_disjoint(ops[k], ops[l], bs),
    ensures
        plan_spec(ops, order, bs) is Ok,
        replay_spec(data, plan_spec(ops, order, bs)->Ok_0) is Ok,
        forall|k: int|
            0 <= k < ops.len() ==> #[trigger] lands_in_place(
                ops[k],
                bs,
                data,
                replay_spec(data, plan_spec(ops, order, bs)->Ok_0)->Ok_0,
            ),
{
    let n = order.len() as int;
    lemma_replace_plan_ok(ops, order, bs, data.len() as int, n);
    let steps = plan_spec(ops, order, bs)->Ok_0;
    lemma_plan_steps(ops, order, bs, n);
    assert forall|t: int| 0 <= t < steps.len() implies {
        &&& (#[trigger] steps[t]).action is Write
        &&& steps[t].data_offset + steps[t].data_length <= data.len()
        &&& write_offset(steps[t]) + steps[t].data_length <= usize::MAX
    } by {
        let op = ops[order[t] as int];
        assert(simple_replace(op, bs, data.len() as int));
        assert(step_spec(op, order[t], bs, cursor_after(steps.take(t))) == Ok::<
            StepModel,
            PayloadError,
        >(steps[t]));
    }
    lemma_replace_replay_ok(data, steps, n);
    let img = replay_spec(data, steps)->Ok_0;
    assert forall|k: int| 0 <= k < ops.len() implies (#[trigger] ops[k]).op_type == OpType::Replace by {
        assert(simple_replace(ops[k], bs, data.len() as int));
    }
    assert forall|k: int, l: int|
        #![trigger ops[k], ops[l]]
        0 <= k < ops.len() && 0 <= l < ops.len() && k != l && ops[k].data_length is Some
            && ops[l].data_length is Some implies disjoint(
            first_target(ops[k], bs),
            ops[k].data_length->Some_0 as int,
            first_target(ops[l], bs),
            ops[l].data_length->Some_0 as int,
        ) by {
        assert(targets_disjoint(ops[k], ops[l], bs));
    }
    lemma_replace_operations_land_in_place(ops, order, bs, data, img);
}

/// Every operation is a simple replace, and no two share source or destination bytes.
pub open spec fn disjoint_replaces(ops: Seq<OperationModel>, bs: u64, data_len: int) -> bool {
    &&& forall|k: int| 0 <= k < ops.len() ==> #[trigger] simple_replace(ops[k], bs, data_len)
    &&& forall|k: int, l: int|
        0 <= k < ops.len() && 0 <= l < ops.len() && k != l ==> sources_disjoint(
            #[trigger] ops[k],
            #[trigger] ops[l],
        ) && targets_disjoint(ops[k], ops[l], bs)
}

/// A well-formed full payload whose selected partition holds only replace operations with
/// disjoint sources and destinations is extracted successfully, and each operation's
/// destination range in the image holds exactly its bytes of the data region (which starts
/// after the header, the manifest and its signature), whatever order the manifest lists them in.
pub proof fn lemma_replace_payload_extracts(
    p: Seq<u8>,
    name: Option<&str>,
    r: Result<(Seq<u8>, Seq<u8>), PayloadError>,
)
    requires
        header_spec(p) is Ok,
        ({
            let h = header_spec(p)->Ok_0;
            let mend = HEADER_LEN + h.manifest_len;
            let dstart = mend + h.signature_len;
            &&& p.len() >= dstart
            &&& manifest_spec(p.subrange(HEADER_LEN as int, mend)) matches Some(m)
            &&& m.minor_version == 0
            &&& selected_index(m.partitions, name) matches Some(i)
            &&& disjoint_replaces(
                m.partitions[i].operations,
                m.block_size as u64,
                p.len() - dstart,
            )
        }),
        extract_outcome(p, name, r),
    ensures
        ({
            let h = header_spec(p)->Ok_0;
            let mend = HEADER_LEN + h.manifest_len;
            let dstart = mend + h.signature_len;
            let m = manifest_spec(p.subrange(HEADER_LEN as int, mend))->Some_0;
            let ops = m.partitions[selected_index(m.partitions, name)->Some_0].operations;
            &&& r is Ok
            &&& forall|k: int|
                0 <= k < ops.len() ==> #[trigger] lands_in_place(
                    ops[k],
                    m.block_size as u64,
                    p.subrange(dstart, p.len() as int),
                    r->Ok_0.1,
                )
        }),
{
    let h = header_spec(p)->Ok_0;
    let mend = HEADER_LEN + h.manifest_len;
    let dstart = mend + h.signature_len;
    let m = manifest_spec(p.subrange(HEADER_LEN as int, mend))->Some_0;
    let i = selected_index(m.partitions, name)->Some_0;
    let part = m.partitions[i];
    let ops = part.operations;
    let bs = m.block_size as u64;
    let data = p.subrange(dstart, p.len() as int);
    let order = choose|order: Seq<usize>|
        is_replay_order(ops, order) && match plan_spec(ops, order, bs) {
            Err(e) => r == Err::<(Seq<u8>, Seq<u8>), PayloadError>(e),
            Ok(steps) => match replay_spec(data, steps) {
                Err(e) => r == Err::<(Seq<u8>, Seq<u8>), PayloadError>(e),
                Ok(img) => r == Ok::<(Seq<u8>, Seq<u8>), PayloadError>((part.name, img)),
            },
        };
    assert(disjoint_replaces(ops, bs, data.len() as int));
    lemma_replace_operations_extract(ops, order, bs, data);
}

/// Byte `k` lies in one of the ranges.
pub open spec fn in_ranges(rs: Seq<ByteRange>, k: int) -> bool {
    exists|i: int| 0 <= i < rs.len() && (#[trigger] rs[i]).offset <= k < rs[i].offset + rs[i].len
}

/// Step `st`, reading its bytes from `data`, may write byte `k` of the image.
pub open spec fn touches(st: StepModel, data: Seq<u8>, k: int) -> bool {
    let chunk = data.subrange(st.data_offset as int, st.data_offset + st.data_length);
    match st.action {
        ActionModel::Write(o) => o <= k < o + st.data_length,
        ActionModel::Zero(rs) => in_ranges(rs, k),
        ActionModel::Decompress(o, c) => match decoded(c, chunk) {
            Some(d) => o <= k < o + d.len(),
            None => false,
        },
    }
}

proof fn lemma_zero_fill_keeps(img: Seq<u8>, rs: Seq<ByteRange>, k: int)
    requires
        0 <= k < img.len(),
        !in_ranges(rs, k),
    ensures
        zero_fill(img, rs).len() >= img.len(),
        zero_fill(img, rs)[k] == img[k],
    decreases rs.len(),
{
    if rs.len() > 0 {
        if in_ranges(rs.drop_last(), k) {
            let i = choose|i: int|
                0 <= i < rs.drop_last().len() && (#[trigger] rs.drop_last()[i]).offset <= k
                    < rs.drop_last()[i].offset + rs.drop_last()[i].len;
            assert(rs[i] == rs.drop_last()[i]);
        }
        lemma_zero_fill_keeps(img, rs.drop_last(), k);
        if rs.last().offset <= k < rs.last().offset + rs.last().len {
            assert(rs[rs.len() - 1] == rs.last());
        }
    }
}

proof fn lemma_zero_fill_grows(img: Seq<u8>, rs: Seq<ByteRange>)
    ensures
        zero_fill(img, rs).len() >= img.len(),
    decreases rs.len(),
{
    if rs.len() > 0 {
        lemma_zero_fill_grows(img, rs.drop_last());
    }
}

/// A step leaves every byte that it does not touch as it was.
pub proof fn lemma_untouched_kept(img: Seq<u8>, st: StepModel, data: Seq<u8>, k: int)
    requires
        0 <= k < img.len(),
        st.data_offset + st.data_length <= data.len(),
        !touches(st, data, k),
        apply_spec(
            img,
            st.action,
            data.subrange(st.data_offset as int, st.data_offset + st.data_length),
        ) is Ok,
    ensures
        ({
            let out = apply_spec(
                img,
                st.action,
                data.subrange(st.data_offset as int, st.data_offset + st.data_length),
            )->Ok_0;
            out.len() >= img.len() && out[k] == img[k]
        }),
{
    match st.action {
        ActionModel::Zero(rs) => {
            lemma_zero_fill_keeps(img, rs, k);
        },
        _ => {},
    }
}

/// Once a ZERO step has run, the ranges that it cleared stay zero through every later step that
/// does not touch them: each of its extents ends zero, not only the first.
pub proof fn lemma_zero_step_survives(data: Seq<u8>, steps: Seq<StepModel>, t: int, n: int)
    requires
        0 <= t < n <= steps.len(),
        steps[t].action matches ActionModel::Zero(rs) && forall|u: int, k: int|
            t < u < n && in_ranges(rs, k) ==> !#[trigger] touches(steps[u], data, k),
        replay_prefix(data, steps, n) is Ok,
    ensures
        steps[t].action matches ActionModel::Zero(rs) && forall|i: int|
            0 <= i < rs.len() ==> #[trigger] zeroed(replay_prefix(data, steps, n)->Ok_0, rs[i]),
    decreases n,
{
    let rs = steps[t].action->Zero_0;
    let out = replay_prefix(data, steps, n)->Ok_0;
    if n == t + 1 {
        let prev = replay_prefix(data, steps, t)->Ok_0;
        assert(out == zero_fill(prev, rs));
        lemma_zero_fill_clears_all(prev, rs);
    } else {
        lemma_zero_step_survives(data, steps, t, n - 1);
        let prev = replay_prefix(data, steps, n - 1)->Ok_0;
        let st = steps[n - 1];
        assert forall|i: int| 0 <= i < rs.len() implies #[trigger] zeroed(out, rs[i]) by {
            assert(zeroed(prev, rs[i]));
            assert forall|k: int| rs[i].offset <= k < rs[i].offset + rs[i].len implies out[k]
                == 0u8 by {
                assert(in_ranges(rs, k));
                assert(!touches(st, data, k));
                lemma_untouched_kept(prev, st, data, k);
            }
            if rs[i].len > 0 {
                let k = rs[i].offset as int;
                assert(in_ranges(rs, k));
                lemma_untouched_kept(prev, st, data, k);
            } else {
                let out2 = apply_spec(
                    prev,
                    st.action,
                    data.subrange(st.data_offset as int, st.data_offset + st.data_length),
                )->Ok_0;
                assert(out == out2);
                match st.action {
                    ActionModel::Zero(rs2) => lemma_zero_fill_grows(prev, rs2),
                    _ => {},
                }
            }
        }
    }
}

} // verus!
