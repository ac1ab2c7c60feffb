//! Mathematical model of the connector's copy phase.
//!
//! The write phase is modelled as a flat sequence of copy operations, one per
//! (strip, mapping) pair in order, each overwriting a byte range of one
//! device's buffer with a slice of the strip's pixel buffer. All contracts
//! and laws about `Connector::write` are stated over this model.

use vstd::prelude::*;

use crate::connector::ConnectorError;
use crate::connector::Mapping;
use crate::idmap::spec_find;

verus! {

/// Spec-level image of a device: its physical strip lengths and byte buffer.
pub struct DeviceV {
    pub lengths: Seq<u16>,
    pub buffer: Seq<u8>,
}

/// Spec-level image of a virtual strip: its mappings and pixel buffer.
pub struct StripV {
    pub mappings: Seq<Mapping>,
    pub buffer: Seq<u8>,
}

/// Spec-level image of a connector: devices and strips with their ids, in
/// insertion order.
pub struct ConnectorV {
    pub devices: Seq<(u64, DeviceV)>,
    pub strips: Seq<(u64, StripV)>,
}

/// Sum of a sequence of strip lengths.
pub open spec fn sum_u16(s: Seq<u16>) -> int
    decreases s.len(),
{
    if s.len() == 0 {
        0
    } else {
        sum_u16(s.drop_last()) + s.last()
    }
}

/// Number of LEDs on the physical strips before index `i` of a device
/// (indices past the end count every strip, as consuming the length list
/// does).
pub open spec fn leds_before(lengths: Seq<u16>, i: int) -> int {
    if i <= lengths.len() {
        sum_u16(lengths.take(i))
    } else {
        sum_u16(lengths)
    }
}

impl DeviceV {
    /// A device's buffer holds three bytes per LED of its physical strips.
    pub open spec fn wf(self) -> bool {
        self.buffer.len() == 3 * sum_u16(self.lengths)
    }
}

/// Number of pixels of a strip consumed by its mappings before index `mi`.
pub open spec fn pixels_before(mappings: Seq<Mapping>, mi: int) -> int
    decreases mi,
{
    if mi <= 0 || mi > mappings.len() {
        0
    } else {
        pixels_before(mappings, mi - 1) + mappings[mi - 1].length
    }
}

/// Sums of strip lengths are never negative.
pub proof fn lemma_sum_u16_nonneg(s: Seq<u16>)
    ensures
        sum_u16(s) >= 0,
    decreases s.len(),
{
    if s.len() > 0 {
        lemma_sum_u16_nonneg(s.drop_last());
    }
}

/// Prefix LED counts are never negative.
pub proof fn lemma_leds_before_nonneg(lengths: Seq<u16>, i: int)
    ensures
        leds_before(lengths, i) >= 0,
{
    if i <= lengths.len() {
        lemma_sum_u16_nonneg(lengths.take(i));
    } else {
        lemma_sum_u16_nonneg(lengths);
    }
}

/// Strip lengths are unsigned: prefix pixel counts are never negative.
pub proof fn lemma_pixels_before_nonneg(mappings: Seq<Mapping>, mi: int)
    ensures
        pixels_before(mappings, mi) >= 0,
    decreases mi,
{
    if 0 < mi <= mappings.len() {
        lemma_pixels_before_nonneg(mappings, mi - 1);
    }
}

/// First byte of the device range addressed by mapping `m`.
pub open spec fn dst_start(dev: DeviceV, m: Mapping) -> int {
    3 * (leds_before(dev.lengths, m.strip_id as int) + m.offset)
}

/// One copy operation: `bytes` replaces the range of device `dev`'s buffer
/// starting at byte `start`.
pub struct CopyOp {
    pub dev: u64,
    pub start: int,
    pub bytes: Seq<u8>,
}

/// The copy operation of mapping `mi` of `strip`, addressed against
/// `devices`.
pub open spec fn strip_op(devices: Seq<(u64, DeviceV)>, strip: StripV, mi: int) -> CopyOp {
    let m = strip.mappings[mi];
    let src = 3 * pixels_before(strip.mappings, mi);
    CopyOp {
        dev: m.device_id,
        start: match spec_find(devices, m.device_id) {
            Some(di) => dst_start(devices[di].1, m),
            None => 0,
        },
        bytes: strip.buffer.subrange(src, src + 3 * m.length),
    }
}

/// All copy operations of one strip, in mapping order.
pub open spec fn ops_of_strip(devices: Seq<(u64, DeviceV)>, strip: StripV) -> Seq<CopyOp> {
    Seq::new(strip.mappings.len(), |mi: int| strip_op(devices, strip, mi))
}

/// All copy operations of the strips before index `si`, in strip order.
pub open spec fn ops_upto(c: ConnectorV, si: int) -> Seq<CopyOp>
    decreases si,
{
    if si <= 0 {
        Seq::empty()
    } else {
        ops_upto(c, si - 1) + ops_of_strip(c.devices, c.strips[si - 1].1)
    }
}

/// Every copy operation of the connector, in execution order.
pub open spec fn all_ops(c: ConnectorV) -> Seq<CopyOp> {
    ops_upto(c, c.strips.len() as int)
}

/// Mapping `mi` of strip `si` addresses an existing device and stays inside
/// both the strip's and the device's buffer.
pub open spec fn mapping_ok(c: ConnectorV, si: int, mi: int) -> bool {
    let strip = c.strips[si].1;
    let m = strip.mappings[mi];
    let src = 3 * pixels_before(strip.mappings, mi);
    match spec_find(c.devices, m.device_id) {
        None => false,
        Some(di) => {
            &&& src + 3 * m.length <= strip.buffer.len()
            &&& dst_start(c.devices[di].1, m) + 3 * m.length <= c.devices[di].1.buffer.len()
        },
    }
}

/// Every mapping of every strip is addressable.
pub open spec fn write_ok(c: ConnectorV) -> bool {
    forall|si: int, mi: int|
        0 <= si < c.strips.len() && 0 <= mi < c.strips[si].1.mappings.len()
            ==> #[trigger] mapping_ok(c, si, mi)
}

/// The first failure the copy phase meets when scanning strips in order and
/// each strip's mappings in order, starting at strip `si`, mapping `mi`.
pub open spec fn write_error_from(c: ConnectorV, si: int, mi: int) -> Option<ConnectorError>
    decreases
            c.strips.len() - si,
            (if 0 <= si < c.strips.len() {
                c.strips[si].1.mappings.len() - mi
            } else {
                0
            }),
{
    if si < 0 || mi < 0 || si >= c.strips.len() {
        None
    } else {
        let strip = c.strips[si].1;
        if mi >= strip.mappings.len() {
            write_error_from(c, si + 1, 0)
        } else if spec_find(c.devices, strip.mappings[mi].device_id) is None {
            Some(ConnectorError::DeviceNotFound(strip.mappings[mi].device_id))
        } else if !mapping_ok(c, si, mi) {
            Some(ConnectorError::MappingOutOfRange(c.strips[si].0))
        } else {
            write_error_from(c, si, mi + 1)
        }
    }
}

/// The first failure of the whole copy phase, if any.
pub open spec fn write_error(c: ConnectorV) -> Option<ConnectorError> {
    write_error_from(c, 0, 0)
}

/// `buf` with `bytes` laid over it starting at `start`; bytes outside the
/// buffer are dropped, and the buffer keeps its length.
pub open spec fn overwrite(buf: Seq<u8>, start: int, bytes: Seq<u8>) -> Seq<u8> {
    Seq::new(
        buf.len(),
        |i: int|
            if start <= i < start + bytes.len() {
                bytes[i - start]
            } else {
                buf[i]
            },
    )
}

/// One copy operation applied to the device list; a missing device id leaves
/// the list unchanged.
pub open spec fn apply_op(devices: Seq<(u64, DeviceV)>, op: CopyOp) -> Seq<(u64, DeviceV)> {
    match spec_find(devices, op.dev) {
        None => devices,
        Some(di) => devices.update(
            di,
            (
                op.dev,
                DeviceV {
                    lengths: devices[di].1.lengths,
                    buffer: overwrite(devices[di].1.buffer, op.start, op.bytes),
                },
            ),
        ),
    }
}

/// A sequence of copy operations applied left to right.
pub open spec fn apply_ops(devices: Seq<(u64, DeviceV)>, ops: Seq<CopyOp>) -> Seq<(u64, DeviceV)>
    decreases ops.len(),
{
    if ops.len() == 0 {
        devices
    } else {
        apply_ops(apply_op(devices, ops[0]), ops.drop_first())
    }
}

/// The connector after a successful copy phase: every operation applied, in
/// order; the strips are untouched.
pub open spec fn spec_write(c: ConnectorV) -> ConnectorV {
    ConnectorV { devices: apply_ops(c.devices, all_ops(c)), strips: c.strips }
}

/// Same device ids, strip lengths, and buffer sizes, position by position.
pub open spec fn same_shape(a: Seq<(u64, DeviceV)>, b: Seq<(u64, DeviceV)>) -> bool {
    &&& a.len() == b.len()
    &&& forall|i: int|
        0 <= i < a.len() ==> (#[trigger] a[i]).0 == b[i].0 && a[i].1.lengths == b[i].1.lengths
            && a[i].1.buffer.len() == b[i].1.buffer.len()
}

/// Applying one operation never changes ids, strip lengths, or buffer
/// sizes.
pub proof fn lemma_apply_op_shape(devices: Seq<(u64, DeviceV)>, op: CopyOp)
    ensures
        same_shape(devices, apply_op(devices, op)),
{
    crate::idmap::lemma_spec_find(devices, op.dev);
}

/// Applying any operation sequence never changes ids, strip lengths, or
/// buffer sizes.
pub proof fn lemma_apply_ops_shape(devices: Seq<(u64, DeviceV)>, ops: Seq<CopyOp>)
    ensures
        same_shape(devices, apply_ops(devices, ops)),
    decreases ops.len(),
{
    if ops.len() > 0 {
        lemma_apply_op_shape(devices, ops[0]);
        lemma_apply_ops_shape(apply_op(devices, ops[0]), ops.drop_first());
    }
}

/// Fold-left over a snoc: the last operation applies last.
pub proof fn lemma_apply_ops_snoc(devices: Seq<(u64, DeviceV)>, ops: Seq<CopyOp>, op: CopyOp)
    ensures
        apply_ops(devices, ops.push(op)) == apply_op(apply_ops(devices, ops), op),
    decreases ops.len(),
{
    if ops.len() == 0 {
        assert(ops.push(op)[0] == op);
        assert(ops.push(op).drop_first() =~= Seq::<CopyOp>::empty());
        assert(apply_ops(devices, ops.push(op)) == apply_ops(
            apply_op(devices, op),
            Seq::<CopyOp>::empty(),
        ));
        assert(apply_ops(apply_op(devices, op), Seq::<CopyOp>::empty()) == apply_op(devices, op));
    } else {
        assert(ops.push(op)[0] == ops[0]);
        assert(ops.push(op).drop_first() =~= ops.drop_first().push(op));
        lemma_apply_ops_snoc(apply_op(devices, ops[0]), ops.drop_first(), op);
        assert(apply_ops(devices, ops.push(op)) == apply_ops(
            apply_op(devices, ops[0]),
            ops.drop_first().push(op),
        ));
        assert(apply_ops(devices, ops) == apply_ops(apply_op(devices, ops[0]), ops.drop_first()));
    }
}

/// A scan that reports no failure from `(si, mi)` on found every later
/// position fine; in particular the target `(ti, tj)`.
pub proof fn lemma_scan_none_ok(c: ConnectorV, si: int, mi: int, ti: int, tj: int)
    requires
        write_error_from(c, si, mi) is None,
        0 <= si,
        0 <= mi,
        si <= ti < c.strips.len(),
        0 <= tj < c.strips[ti].1.mappings.len(),
        ti == si ==> mi <= tj,
    ensures
        mapping_ok(c, ti, tj),
    decreases c.strips.len() - si, c.strips[ti].1.mappings.len() + c.strips[si].1.mappings.len()
        - mi,
{
    let strip = c.strips[si].1;
    if mi >= strip.mappings.len() {
        lemma_scan_none_ok(c, si + 1, 0, ti, tj);
    } else if si == ti && mi == tj {
    } else {
        lemma_scan_none_ok(c, si, mi + 1, ti, tj);
    }
}

} // verus!
