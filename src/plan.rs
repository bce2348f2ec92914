//! The operation engine's decisions: the order in which operations are replayed, and for each
//! one what to skip and read from the data stream and what to do to the image.
use crate::error::PayloadError;
use crate::manifest::{operations_view, Extent, InstallOperation, OpType, OperationModel};
use vstd::prelude::*;

verus! {

/// The position by which operations are ordered: their data offset, zero when absent.
pub open spec fn sort_key(o: OperationModel) -> u64 {
    match o.data_offset {
        Some(v) => v,
        None => 0,
    }
}

/// Operation `a` comes no later than operation `b`: by data offset, then by position.
pub open spec fn precedes(ops: Seq<OperationModel>, a: int, b: int) -> bool {
    sort_key(ops[a]) < sort_key(ops[b]) || (sort_key(ops[a]) == sort_key(ops[b]) && a <= b)
}

/// Index `k` appears in `order`.
pub open spec fn listed(order: Seq<usize>, k: int) -> bool {
    exists|i: int| 0 <= i < order.len() && order[i] == k
}

/// `order` lists every index of `ops` once, ordered by data offset, ties kept in manifest order.
pub open spec fn is_replay_order(ops: Seq<OperationModel>, order: Seq<usize>) -> bool {
    &&& order.len() == ops.len()
    &&& forall|i: int| 0 <= i < order.len() ==> order[i] < ops.len()
    &&& forall|i: int, j: int| 0 <= i < j < order.len() ==> order[i] != order[j]
    &&& forall|k: int| 0 <= k < ops.len() ==> #[trigger] listed(order, k)
    &&& forall|i: int, j: int|
        0 <= i < j < order.len() ==> precedes(ops, order[i] as int, order[j] as int)
}

proof fn lemma_orders_agree_upto(ops: Seq<OperationModel>, o1: Seq<usize>, o2: Seq<usize>, i: int)
    requires
        is_replay_order(ops, o1),
        is_replay_order(ops, o2),
        0 <= i <= o1.len(),
    ensures
        forall|j: int| 0 <= j < i ==> o1[j] == o2[j],
    decreases i,
{
    if i > 0 {
        lemma_orders_agree_upto(ops, o1, o2, i - 1);
        let t = i - 1;
        let x = o1[t] as int;
        let y = o2[t] as int;
        assert(listed(o2, x));
        let p = choose|p: int| 0 <= p < o2.len() && o2[p] == x;
        assert(listed(o1, y));
        let q = choose|q: int| 0 <= q < o1.len() && o1[q] == y;
        if p < t {
            assert(o1[p] == o2[p]);
        }
        if q < t {
            assert(o1[q] == o2[q]);
        }
        if p > t {
            assert(precedes(ops, y, x));
        }
        if q > t {
            assert(precedes(ops, x, y));
        }
    }
}

/// There is only one replay order of a list of operations.
pub proof fn lemma_replay_order_unique(ops: Seq<OperationModel>, o1: Seq<usize>, o2: Seq<usize>)
    requires
        is_replay_order(ops, o1),
        is_replay_order(ops, o2),
    ensures
        o1 == o2,
{
    lemma_orders_agree_upto(ops, o1, o2, o1.len() as int);
    assert(o1 =~= o2);
}

fn key_of(op: &InstallOperation) -> (r: u64)
    ensures
        r == sort_key(op@),
{
    match op.data_offset {
        Some(v) => v,
        None => 0,
    }
}

/// The order in which the operations are replayed, as indices into `ops`: a stable sort by
/// data offset, so that the data stream is only ever read forward.
pub fn replay_order(ops: &Vec<InstallOperation>) -> (order: Vec<usize>)
    ensures
        is_replay_order(operations_view(ops@), order@),
{
    let ghost m = operations_view(ops@);
    let n = ops.len();
    let mut order: Vec<usize> = Vec::new();
    let mut t: usize = 0;
    while t < n
        invariant
            n == ops@.len(),
            t <= n,
            order@.len() == t,
            forall|i: int| 0 <= i < t ==> order@[i] == i,
        decreases n - t,
    {
        order.push(t);
        t = t + 1;
    }
    let ghost mut inv: Seq<int> = Seq::new(n as nat, |k: int| k);
    let mut i: usize = 0;
    while i < n
        invariant
            n == ops@.len(),
            m == operations_view(ops@),
            m.len() == n,
            i <= n,
            order@.len() == n,
            inv.len() == n,
            forall|a: int| 0 <= a < n ==> order@[a] < n,
            forall|a: int, b: int| 0 <= a < n && 0 <= b < n && a != b ==> order@[a] != order@[b],
            forall|k: int| 0 <= k < n ==> 0 <= #[trigger] inv[k] < n && order@[inv[k]] == k,
            forall|a: int, b: int|
                0 <= a < b < n && a < i ==> precedes(m, order@[a] as int, order@[b] as int),
        decreases n - i,
    {
        let mut best: usize = i;
        let mut j: usize = i + 1;
        while j < n
            invariant
                n == ops@.len(),
                m == operations_view(ops@),
                m.len() == n,
                i <= best < n,
                i < j <= n,
                order@.len() == n,
                forall|a: int| 0 <= a < n ==> order@[a] < n,
                forall|b: int| i <= b < j ==> precedes(m, order@[best as int] as int, order@[b] as int),
            decreases n - j,
        {
            let kb = key_of(&ops[order[best]]);
            let kj = key_of(&ops[order[j]]);
            proof {
                assert(m[order@[best as int] as int] == ops@[order@[best as int] as int]@);
                assert(m[order@[j as int] as int] == ops@[order@[j as int] as int]@);
            }
            if kj < kb || (kj == kb && order[j] < order[best]) {
                best = j;
            }
            j = j + 1;
        }
        let vi = order[i];
        let vb = order[best];
        let ghost old_order = order@;
        order.set(i, vb);
        order.set(best, vi);
        proof {
            inv = inv.update(vb as int, i as int).update(vi as int, best as int);
            assert forall|a: int, b: int|
                0 <= a < b < n && a < i + 1 implies precedes(m, order@[a] as int, order@[b] as int) by {
                if a == i {
                    if b == best {
                        assert(order@[b] == vi);
                    } else {
                        assert(order@[b] == old_order[b]);
                    }
                } else {
                    assert(order@[a] == old_order[a]);
                    if b == i || b == best {
                    } else {
                        assert(order@[b] == old_order[b]);
                    }
                }
            }
        }
        i = i + 1;
    }
    proof {
        assert forall|k: int| 0 <= k < n implies #[trigger] listed(order@, k) by {
            assert(order@[inv[k]] == k);
        }
    }
    order
}

/// A region of the image, in bytes.
#[derive(Debug, Clone, Copy, PartialEq, Eq)]
pub struct ByteRange {
    pub offset: u64,
    pub len: u64,
}

#[derive(Debug, Clone, Copy, PartialEq, Eq)]
pub enum Codec {
    Bzip2,
    Xz,
}

/// What a step does to the image with the data it read.
#[derive(Debug, Clone)]
pub enum Action {
    /// Write the data verbatim at this byte offset.
    Write(u64),
    /// Fill each range with zero bytes; the data is not used.
    Zero(Vec<ByteRange>),
    /// Decompress the data and write the result at this byte offset.
    Decompress(u64, Codec),
}

/// One operation, ready to replay: skip `skip` bytes of the data stream, read `data_length`
/// bytes (which start at `data_offset` of the stream), then apply `action`.
#[derive(Debug, Clone)]
pub struct Step {
    /// Position of the operation in the partition's list.
    pub index: usize,
    pub data_offset: u64,
    pub skip: u64,
    pub data_length: u64,
    pub action: Action,
}

pub enum ActionModel {
    Write(u64),
    Zero(Seq<ByteRange>),
    Decompress(u64, Codec),
}

pub struct StepModel {
    pub index: usize,
    pub data_offset: u64,
    pub skip: u64,
    pub data_length: u64,
    pub action: ActionModel,
}

impl View for Action {
    type V = ActionModel;

    open spec fn view(&self) -> ActionModel {
        match self {
            Action::Write(o) => ActionModel::Write(*o),
            Action::Zero(rs) => ActionModel::Zero(rs@),
            Action::Decompress(o, c) => ActionModel::Decompress(*o, *c),
        }
    }
}

impl View for Step {
    type V = StepModel;

    open spec fn view(&self) -> StepModel {
        StepModel {
            index: self.index,
            data_offset: self.data_offset,
            skip: self.skip,
            data_length: self.data_length,
            action: self.action@,
        }
    }
}

pub open spec fn steps_view(steps: Seq<Step>) -> Seq<StepModel> {
    steps.map_values(|s: Step| s@)
}

pub open spec fn plan_view(r: Result<Vec<Step>, PayloadError>) -> Result<Seq<StepModel>, PayloadError> {
    match r {
        Ok(v) => Ok(steps_view(v@)),
        Err(e) => Err(e),
    }
}

/// The bytes that an extent covers, when both of its fields are present and fit in 64 bits.
pub open spec fn extent_range(e: Extent, block_size: u64) -> Result<ByteRange, PayloadError> {
    match e.start_block {
        None => Err(PayloadError::StartBlockMissing),
        Some(sb) => match e.num_blocks {
            None => Err(PayloadError::NumBlocksMissing),
            Some(nb) => if sb * block_size + nb * block_size > u64::MAX {
                Err(PayloadError::OffsetOverflow)
            } else {
                Ok(ByteRange { offset: (sb * block_size) as u64, len: (nb * block_size) as u64 })
            },
        },
    }
}

/// The byte ranges of every extent, in order; the first extent that fails decides the error.
pub open spec fn zero_ranges(exts: Seq<Extent>, block_size: u64) -> Result<
    Seq<ByteRange>,
    PayloadError,
>
    decreases exts.len(),
{
    if exts.len() == 0 {
        Ok(Seq::empty())
    } else {
        match zero_ranges(exts.drop_last(), block_size) {
            Err(e) => Err(e),
            Ok(rs) => match extent_range(exts.last(), block_size) {
                Err(e) => Err(e),
                Ok(r) => Ok(rs.push(r)),
            },
        }
    }
}

/// The action of an operation whose first extent starts at byte `out`.
pub open spec fn action_spec(op: OperationModel, out: u64, block_size: u64) -> Result<
    ActionModel,
    PayloadError,
> {
    match op.op_type {
        OpType::Replace => Ok(ActionModel::Write(out)),
        OpType::ReplaceBz => Ok(ActionModel::Decompress(out, Codec::Bzip2)),
        OpType::ReplaceXz => Ok(ActionModel::Decompress(out, Codec::Xz)),
        OpType::Zero => match zero_ranges(op.dst_extents, block_size) {
            Ok(rs) => Ok(ActionModel::Zero(rs)),
            Err(e) => Err(e),
        },
        OpType::Other(_) => Err(PayloadError::UnsupportedOperation),
    }
}

/// The step for operation `op` (at `index`) when `cursor` bytes of the data stream are consumed.
pub open spec fn step_spec(op: OperationModel, index: usize, block_size: u64, cursor: u64) -> Result<
    StepModel,
    PayloadError,
> {
    match op.data_length {
        None => Err(PayloadError::DataLengthMissing),
        Some(len) => match op.data_offset {
            None => Err(PayloadError::DataOffsetMissing),
            Some(off) => if off < cursor {
                Err(PayloadError::OverlappingData)
            } else if off + len > u64::MAX {
                Err(PayloadError::OffsetOverflow)
            } else if op.dst_extents.len() == 0 {
                Err(PayloadError::DstExtentsMissing)
            } else {
                match op.dst_extents[0].start_block {
                    None => Err(PayloadError::StartBlockMissing),
                    Some(sb) => if sb * block_size > u64::MAX {
                        Err(PayloadError::OffsetOverflow)
                    } else {
                        match action_spec(op, (sb * block_size) as u64, block_size) {
                            Err(e) => Err(e),
                            Ok(a) => Ok(
                                StepModel {
                                    index,
                                    data_offset: off,
                                    skip: (off - cursor) as u64,
                                    data_length: len,
                                    action: a,
                                },
                            ),
                        }
                    },
                }
            },
        },
    }
}

/// How much of the data stream the steps consume.
pub open spec fn cursor_after(steps: Seq<StepModel>) -> u64 {
    if steps.len() == 0 {
        0
    } else {
        (steps.last().data_offset + steps.last().data_length) as u64
    }
}

/// The steps for the first `n` operations of `order`.
pub open spec fn plan_prefix(
    ops: Seq<OperationModel>,
    order: Seq<usize>,
    block_size: u64,
    n: int,
) -> Result<Seq<StepModel>, PayloadError>
    decreases n,
{
    if n <= 0 {
        Ok(Seq::empty())
    } else {
        match plan_prefix(ops, order, block_size, n - 1) {
            Err(e) => Err(e),
            Ok(steps) => match step_spec(
                ops[order[n - 1] as int],
                order[n - 1],
                block_size,
                cursor_after(steps),
            ) {
                Err(e) => Err(e),
                Ok(st) => Ok(steps.push(st)),
            },
        }
    }
}

pub open spec fn plan_spec(ops: Seq<OperationModel>, order: Seq<usize>, block_size: u64) -> Result<
    Seq<StepModel>,
    PayloadError,
> {
    plan_prefix(ops, order, block_size, order.len() as int)
}

fn extent_byte_range(e: Extent, block_size: u64) -> (r: Result<ByteRange, PayloadError>)
    ensures
        r == extent_range(e, block_size),
{
    let sb = match e.start_block {
        Some(v) => v,
        None => return Err(PayloadError::StartBlockMissing),
    };
    let nb = match e.num_blocks {
        Some(v) => v,
        None => return Err(PayloadError::NumBlocksMissing),
    };
    let off = match sb.checked_mul(block_size) {
        Some(v) => v,
        None => return Err(PayloadError::OffsetOverflow),
    };
    let len = match nb.checked_mul(block_size) {
        Some(v) => v,
        None => return Err(PayloadError::OffsetOverflow),
    };
    if len > u64::MAX - off {
        return Err(PayloadError::OffsetOverflow);
    }
    Ok(ByteRange { offset: off, len })
}

fn zero_byte_ranges(exts: &Vec<Extent>, block_size: u64) -> (r: Result<
    Vec<ByteRange>,
    PayloadError,
>)
    ensures
        match r {
            Ok(v) => zero_ranges(exts@, block_size) == Ok::<Seq<ByteRange>, PayloadError>(v@),
            Err(e) => zero_ranges(exts@, block_size) == Err::<Seq<ByteRange>, PayloadError>(e),
        },
{
    let mut out: Vec<ByteRange> = Vec::new();
    let mut i: usize = 0;
    while i < exts.len()
        invariant
            i <= exts@.len(),
            zero_ranges(exts@.take(i as int), block_size) == Ok::<Seq<ByteRange>, PayloadError>(
                out@,
            ),
        decreases exts@.len() - i,
    {
        assert(exts@.take(i + 1).drop_last() =~= exts@.take(i as int));
        match extent_byte_range(exts[i], block_size) {
            Ok(r) => out.push(r),
            Err(e) => {
                assert(zero_ranges(exts@.take(i + 1), block_size) == Err::<Seq<ByteRange>, PayloadError>(e));
                proof { lemma_zero_ranges_err_extends(exts@, block_size, i as int + 1); }
                return Err(e);
            },
        }
        i = i + 1;
    }
    assert(exts@.take(i as int) =~= exts@);
    Ok(out)
}

/// Once a prefix of the extents fails, the whole list fails with the same error.
proof fn lemma_zero_ranges_err_extends(exts: Seq<Extent>, block_size: u64, n: int)
    requires
        0 <= n <= exts.len(),
        zero_ranges(exts.take(n), block_size) is Err,
    ensures
        zero_ranges(exts, block_size) == zero_ranges(exts.take(n), block_size),
    decreases exts.len() - n,
{
    if n < exts.len() {
        assert(exts.take(n + 1).drop_last() =~= exts.take(n));
        lemma_zero_ranges_err_extends(exts, block_size, n + 1);
    } else {
        assert(exts.take(n) =~= exts);
    }
}

fn plan_step(op: &InstallOperation, index: usize, block_size: u64, cursor: u64) -> (r: Result<
    Step,
    PayloadError,
>)
    ensures
        match r {
            Ok(st) => step_spec(op@, index, block_size, cursor) == Ok::<StepModel, PayloadError>(st@),
            Err(e) => step_spec(op@, index, block_size, cursor) == Err::<StepModel, PayloadError>(e),
        },
{
    let len = match op.data_length {
        Some(v) => v,
        None => return Err(PayloadError::DataLengthMissing),
    };
    let off = match op.data_offset {
        Some(v) => v,
        None => return Err(PayloadError::DataOffsetMissing),
    };
    if off < cursor {
        return Err(PayloadError::OverlappingData);
    }
    if len > u64::MAX - off {
        return Err(PayloadError::OffsetOverflow);
    }
    if op.dst_extents.len() == 0 {
        return Err(PayloadError::DstExtentsMissing);
    }
    let sb = match op.dst_extents[0].start_block {
        Some(v) => v,
        None => return Err(PayloadError::StartBlockMissing),
    };
    let out = match sb.checked_mul(block_size) {
        Some(v) => v,
        None => return Err(PayloadError::OffsetOverflow),
    };
    let action = match op.op_type {
        OpType::Replace => Action::Write(out),
        OpType::ReplaceBz => Action::Decompress(out, Codec::Bzip2),
        OpType::ReplaceXz => Action::Decompress(out, Codec::Xz),
        OpType::Zero => match zero_byte_ranges(&op.dst_extents, block_size) {
            Ok(rs) => Action::Zero(rs),
            Err(e) => return Err(e),
        },
        OpType::Other(_) => return Err(PayloadError::UnsupportedOperation),
    };
    Ok(Step { index, data_offset: off, skip: off - cursor, data_length: len, action })
}

/// The steps for the operations taken in `order`; the first operation that cannot be
/// replayed decides the error.
pub fn plan_steps(ops: &Vec<InstallOperation>, order: &Vec<usize>, block_size: u32) -> (r: Result<
    Vec<Step>,
    PayloadError,
>)
    requires
        forall|i: int| 0 <= i < order@.len() ==> order@[i] < ops@.len(),
    ensures
        plan_view(r) == plan_spec(operations_view(ops@), order@, block_size as u64),
{
    let ghost m = operations_view(ops@);
    let bs = block_size as u64;
    let mut steps: Vec<Step> = Vec::new();
    let mut cursor: u64 = 0;
    let mut i: usize = 0;
    assert(steps_view(steps@) =~= Seq::<StepModel>::empty());
    while i < order.len()
        invariant
            m == operations_view(ops@),
            bs == block_size as u64,
            i <= order@.len(),
            forall|k: int| 0 <= k < order@.len() ==> order@[k] < ops@.len(),
            plan_prefix(m, order@, bs, i as int) == Ok::<Seq<StepModel>, PayloadError>(
                steps_view(steps@),
            ),
            cursor == cursor_after(steps_view(steps@)),
        decreases order@.len() - i,
    {
        let k = order[i];
        assert(m[k as int] == ops@[k as int]@);
        match plan_step(&ops[k], k, bs, cursor) {
            Ok(st) => {
                let ghost before = steps@;
                cursor = st.data_offset + st.data_length;
                steps.push(st);
                assert(steps_view(steps@) =~= steps_view(before).push(st@));
            },
            Err(e) => {
                proof { lemma_plan_err_extends(m, order@, bs, i as int + 1); }
                return Err(e);
            },
        }
        i = i + 1;
    }
    Ok(steps)
}

/// Once a prefix of the plan fails, the whole plan fails with the same error.
pub proof fn lemma_plan_err_extends(ops: Seq<OperationModel>, order: Seq<usize>, block_size: u64, n: int)
    requires
        0 <= n <= order.len(),
        plan_prefix(ops, order, block_size, n) is Err,
    ensures
        plan_spec(ops, order, block_size) == plan_prefix(ops, order, block_size, n),
    decreases order.len() - n,
{
    if n < order.len() {
        lemma_plan_err_extends(ops, order, block_size, n + 1);
    }
}

/// Orders the operations for a forward-only data stream and plans every step.
pub fn plan_operations(ops: &Vec<InstallOperation>, block_size: u32) -> (r: Result<
    Vec<Step>,
    PayloadError,
>)
    ensures
        exists|order: Seq<usize>|
            is_replay_order(operations_view(ops@), order) && plan_view(r) == plan_spec(
                operations_view(ops@),
                order,
                block_size as u64,
            ),
{
    let order = replay_order(ops);
    let r = plan_steps(ops, &order, block_size);
    assert(is_replay_order(operations_view(ops@), order@));
    r
}

} // verus!
