//! Laws of the connector's copy phase.
//!
//! The copy phase is characterised byte by byte: a device byte holds the
//! value of the last copy operation that covers it, or its prior value when
//! none does. From that follow the public laws: the phase is idempotent,
//! disjoint mappings land verbatim at their computed offsets, and bytes no
//! mapping addresses keep their prior values.

use vstd::prelude::*;

use crate::connector::model::all_ops;
use crate::connector::model::apply_op;
use crate::connector::model::apply_ops;
use crate::connector::model::dst_start;
use crate::connector::model::lemma_apply_ops_shape;
use crate::connector::model::lemma_apply_ops_snoc;
use crate::connector::model::mapping_ok;
use crate::connector::model::ops_of_strip;
use crate::connector::model::ops_upto;
use crate::connector::model::pixels_before;
use crate::connector::model::same_shape;
use crate::connector::model::spec_write;
use crate::connector::model::strip_op;
use crate::connector::model::write_error;
use crate::connector::model::write_error_from;
use crate::connector::model::ConnectorV;
use crate::connector::model::CopyOp;
use crate::idmap::lemma_spec_find;
use crate::idmap::lemma_spec_find_same_keys;
use crate::idmap::spec_find;

verus! {

/// Operation `op` writes byte `k` of the device at position `di` (positions
/// resolved against the device list `base`).
pub open spec fn op_covers(base: Seq<(u64, crate::connector::model::DeviceV)>, op: CopyOp, di: int, k: int) -> bool {
    &&& spec_find(base, op.dev) == Some(di)
    &&& op.start <= k < op.start + op.bytes.len()
}

/// Index of the last operation in `ops` that writes byte `k` of device
/// position `di`, if any.
pub open spec fn last_cover(
    base: Seq<(u64, crate::connector::model::DeviceV)>,
    ops: Seq<CopyOp>,
    di: int,
    k: int,
) -> Option<int>
    decreases ops.len(),
{
    if ops.len() == 0 {
        None
    } else if op_covers(base, ops.last(), di, k) {
        Some(ops.len() - 1)
    } else {
        last_cover(base, ops.drop_last(), di, k)
    }
}

/// What `last_cover` returns is a covering index.
pub proof fn lemma_last_cover_bounds(
    base: Seq<(u64, crate::connector::model::DeviceV)>,
    ops: Seq<CopyOp>,
    di: int,
    k: int,
)
    ensures
        match last_cover(base, ops, di, k) {
            Some(oi) => 0 <= oi < ops.len() && op_covers(base, ops[oi], di, k),
            None => forall|oi: int| 0 <= oi < ops.len() ==> !op_covers(base, #[trigger] ops[oi], di, k),
        },
    decreases ops.len(),
{
    if ops.len() > 0 {
        lemma_last_cover_bounds(base, ops.drop_last(), di, k);
        if !op_covers(base, ops.last(), di, k) {
            match last_cover(base, ops.drop_last(), di, k) {
                Some(oi) => {
                    assert(ops.drop_last()[oi] == ops[oi]);
                },
                None => {
                    assert forall|oi: int| 0 <= oi < ops.len() implies !op_covers(
                        base,
                        #[trigger] ops[oi],
                        di,
                        k,
                    ) by {
                        if oi < ops.len() - 1 {
                            assert(ops.drop_last()[oi] == ops[oi]);
                        }
                    }
                },
            }
        }
    }
}

/// Byte-level characterisation of the copy phase: after applying `ops` to
/// `devs`, a device byte holds the last covering operation's value, or its
/// prior value when no operation covers it.
pub proof fn lemma_apply_ops_byte(
    base: Seq<(u64, crate::connector::model::DeviceV)>,
    devs: Seq<(u64, crate::connector::model::DeviceV)>,
    ops: Seq<CopyOp>,
    di: int,
    k: int,
)
    requires
        devs.len() == base.len(),
        forall|i: int| 0 <= i < devs.len() ==> (#[trigger] devs[i]).0 == base[i].0,
        0 <= di < devs.len(),
        0 <= k < devs[di].1.buffer.len(),
    ensures
        apply_ops(devs, ops)[di].1.buffer[k] == match last_cover(base, ops, di, k) {
            Some(oi) => ops[oi].bytes[k - ops[oi].start],
            None => devs[di].1.buffer[k],
        },
    decreases ops.len(),
{
    lemma_apply_ops_shape(devs, ops);
    if ops.len() > 0 {
        let dl = ops.drop_last();
        let last = ops.last();
        lemma_apply_ops_byte(base, devs, dl, di, k);
        let applied = apply_ops(devs, dl);
        lemma_apply_ops_shape(devs, dl);
        lemma_apply_ops_snoc(devs, dl, last);
        assert(dl.push(last) =~= ops);
        assert(apply_ops(devs, ops) == apply_op(applied, last));
        assert forall|i: int| 0 <= i < applied.len() implies (#[trigger] applied[i]).0
            == base[i].0 by {
            assert(devs[i].0 == base[i].0);
            assert(applied[i].0 == devs[i].0);
        }
        lemma_spec_find_same_keys(applied, base, last.dev);
        lemma_spec_find(base, last.dev);
        if !op_covers(base, last, di, k) {
            match last_cover(base, dl, di, k) {
                Some(oi) => {
                    lemma_last_cover_bounds(base, dl, di, k);
                    assert(dl[oi] == ops[oi]);
                },
                None => {},
            }
        }
        match spec_find(base, last.dev) {
            Some(dj) => {
                if dj == di {
                    assert(apply_ops(devs, ops)[di].1.buffer == crate::connector::model::overwrite(
                        applied[di].1.buffer,
                        last.start,
                        last.bytes,
                    ));
                } else {
                    assert(apply_ops(devs, ops)[di].1 == applied[di].1);
                }
            },
            None => {
                assert(apply_ops(devs, ops) == applied);
            },
        }
    }
}

/// The copy operations and the first failure depend only on the strips and
/// the devices' ids, strip lengths, and buffer sizes — not on buffer
/// contents.
pub proof fn lemma_ops_upto_same(a: ConnectorV, b: ConnectorV, si: int)
    requires
        b.strips == a.strips,
        same_shape(a.devices, b.devices),
        0 <= si <= a.strips.len(),
    ensures
        ops_upto(b, si) == ops_upto(a, si),
    decreases si,
{
    if si > 0 {
        lemma_ops_upto_same(a, b, si - 1);
        let strip = a.strips[si - 1].1;
        assert forall|mi: int| 0 <= mi < strip.mappings.len() implies strip_op(b.devices, strip, mi)
            == strip_op(a.devices, strip, mi) by {
            lemma_spec_find_same_keys(a.devices, b.devices, strip.mappings[mi].device_id);
            lemma_spec_find(a.devices, strip.mappings[mi].device_id);
        }
        assert(ops_of_strip(b.devices, strip) =~= ops_of_strip(a.devices, strip));
    }
}

/// The scan for the first failure likewise reads only the strips and the
/// devices' shape.
pub proof fn lemma_write_error_from_same(a: ConnectorV, b: ConnectorV, si: int, mi: int)
    requires
        b.strips == a.strips,
        same_shape(a.devices, b.devices),
    ensures
        write_error_from(b, si, mi) == write_error_from(a, si, mi),
    decreases
            a.strips.len() - si,
            (if 0 <= si < a.strips.len() {
                a.strips[si].1.mappings.len() - mi
            } else {
                0
            }),
{
    if si < 0 || mi < 0 || si >= a.strips.len() {
    } else {
        let strip = a.strips[si].1;
        if mi >= strip.mappings.len() {
            lemma_write_error_from_same(a, b, si + 1, 0);
        } else {
            lemma_spec_find_same_keys(a.devices, b.devices, strip.mappings[mi].device_id);
            lemma_spec_find(a.devices, strip.mappings[mi].device_id);
            assert(mapping_ok(b, si, mi) == mapping_ok(a, si, mi));
            if spec_find(a.devices, strip.mappings[mi].device_id) is Some && mapping_ok(a, si, mi) {
                lemma_write_error_from_same(a, b, si, mi + 1);
            }
        }
    }
}

/// Law: the copy phase is idempotent. Running it again with unchanged strip
/// buffers meets the same addressability verdict and leaves every device
/// buffer exactly as the first run did.
pub proof fn lemma_write_idempotent(c: ConnectorV)
    ensures
        write_error(spec_write(c)) == write_error(c),
        spec_write(spec_write(c)) == spec_write(c),
{
    let w = spec_write(c);
    lemma_apply_ops_shape(c.devices, all_ops(c));
    lemma_write_error_from_same(c, w, 0, 0);
    lemma_ops_upto_same(c, w, c.strips.len() as int);
    let a1 = apply_ops(c.devices, all_ops(c));
    let a2 = apply_ops(a1, all_ops(c));
    assert(spec_write(w).devices == a2);
    lemma_apply_ops_shape(a1, all_ops(c));
    assert forall|di: int| 0 <= di < a1.len() implies a2[di] == a1[di] by {
        assert forall|k: int| 0 <= k < a1[di].1.buffer.len() implies a2[di].1.buffer[k]
            == a1[di].1.buffer[k] by {
            lemma_apply_ops_byte(c.devices, c.devices, all_ops(c), di, k);
            lemma_apply_ops_byte(c.devices, a1, all_ops(c), di, k);
        }
        assert(a2[di].1.buffer =~= a1[di].1.buffer);
    }
    assert(a2 =~= a1);
}

/// Flat position of mapping `(si, mi)` in the connector's operation order.
pub open spec fn op_index(c: ConnectorV, si: int, mi: int) -> int {
    ops_upto(c, si).len() + mi
}

proof fn lemma_op_at_index_upto(c: ConnectorV, si: int, mi: int, t: int)
    requires
        0 <= si < c.strips.len(),
        0 <= mi < c.strips[si].1.mappings.len(),
        si < t <= c.strips.len(),
    ensures
        op_index(c, si, mi) < ops_upto(c, t).len(),
        ops_upto(c, t)[op_index(c, si, mi)] == strip_op(c.devices, c.strips[si].1, mi),
    decreases t,
{
    if t == si + 1 {
        assert(ops_of_strip(c.devices, c.strips[si].1)[mi] == strip_op(
            c.devices,
            c.strips[si].1,
            mi,
        ));
    } else {
        lemma_op_at_index_upto(c, si, mi, t - 1);
    }
}

/// Mapping `(si, mi)` is the operation at its flat position.
pub proof fn lemma_op_at_index(c: ConnectorV, si: int, mi: int)
    requires
        0 <= si < c.strips.len(),
        0 <= mi < c.strips[si].1.mappings.len(),
    ensures
        0 <= op_index(c, si, mi) < all_ops(c).len(),
        all_ops(c)[op_index(c, si, mi)] == strip_op(c.devices, c.strips[si].1, mi),
{
    lemma_op_at_index_upto(c, si, mi, c.strips.len() as int);
}

/// Every flat operation position belongs to some mapping.
proof fn lemma_index_to_pair(c: ConnectorV, oi: int, si: int) -> (r: (int, int))
    requires
        0 <= si <= c.strips.len(),
        ops_upto(c, si).len() <= oi < all_ops(c).len(),
    ensures
        0 <= r.0 < c.strips.len(),
        0 <= r.1 < c.strips[r.0].1.mappings.len(),
        oi == op_index(c, r.0, r.1),
    decreases c.strips.len() - si,
{
    if si == c.strips.len() {
        assert(false);
        (0, 0)
    } else if oi < ops_upto(c, si + 1).len() {
        (si, oi - ops_upto(c, si).len())
    } else {
        lemma_index_to_pair(c, oi, si + 1)
    }
}

/// No two mappings (of any strips) write the same device byte.
pub open spec fn targets_disjoint(c: ConnectorV) -> bool {
    forall|oi: int, oj: int, di: int, k: int|
        0 <= oi < all_ops(c).len() && 0 <= oj < all_ops(c).len() && oi != oj && #[trigger] op_covers(
            c.devices,
            all_ops(c)[oi],
            di,
            k,
        ) ==> !(#[trigger] op_covers(c.devices, all_ops(c)[oj], di, k))
}

proof fn lemma_last_cover_unique(
    base: Seq<(u64, crate::connector::model::DeviceV)>,
    ops: Seq<CopyOp>,
    oi: int,
    di: int,
    k: int,
)
    requires
        0 <= oi < ops.len(),
        op_covers(base, ops[oi], di, k),
        forall|oj: int|
            0 <= oj < ops.len() && oj != oi ==> !op_covers(base, #[trigger] ops[oj], di, k),
    ensures
        last_cover(base, ops, di, k) == Some(oi),
    decreases ops.len(),
{
    if oi == ops.len() - 1 {
    } else {
        assert(ops.last() == ops[ops.len() - 1]);
        let dl = ops.drop_last();
        assert(dl[oi] == ops[oi]);
        assert forall|oj: int| 0 <= oj < dl.len() && oj != oi implies !op_covers(
            base,
            #[trigger] dl[oj],
            di,
            k,
        ) by {
            assert(dl[oj] == ops[oj]);
        }
        lemma_last_cover_unique(base, dl, oi, di, k);
    }
}

proof fn lemma_last_cover_none(
    base: Seq<(u64, crate::connector::model::DeviceV)>,
    ops: Seq<CopyOp>,
    di: int,
    k: int,
)
    requires
        forall|oi: int| 0 <= oi < ops.len() ==> !op_covers(base, #[trigger] ops[oi], di, k),
    ensures
        last_cover(base, ops, di, k) is None,
    decreases ops.len(),
{
    if ops.len() > 0 {
        assert(ops.last() == ops[ops.len() - 1]);
        let dl = ops.drop_last();
        assert forall|oi: int| 0 <= oi < dl.len() implies !op_covers(
            base,
            #[trigger] dl[oi],
            di,
            k,
        ) by {
            assert(dl[oi] == ops[oi]);
        }
        lemma_last_cover_none(base, dl, di, k);
    }
}

/// Law: when every mapping is addressable and no two mappings write the
/// same device byte, the copy phase reproduces each strip's pixel bytes
/// verbatim inside the addressed device buffer: byte `j` of the range of
/// mapping `mi` of strip `si` equals byte `j` of the slice of the strip's
/// buffer that the mapping consumes.
pub proof fn lemma_write_places_pixels(c: ConnectorV, si: int, mi: int, j: int)
    requires
        write_error(c) is None,
        targets_disjoint(c),
        0 <= si < c.strips.len(),
        0 <= mi < c.strips[si].1.mappings.len(),
        0 <= j < 3 * c.strips[si].1.mappings[mi].length,
    ensures
        ({
            let strip = c.strips[si].1;
            let m = strip.mappings[mi];
            let di = spec_find(c.devices, m.device_id)->Some_0;
            &&& spec_find(c.devices, m.device_id) is Some
            &&& spec_write(c).devices[di].1.buffer[dst_start(c.devices[di].1, m) + j]
                == strip.buffer[3 * pixels_before(strip.mappings, mi) + j]
        }),
{
    let strip = c.strips[si].1;
    let m = strip.mappings[mi];
    crate::connector::model::lemma_scan_none_ok(c, 0, 0, si, mi);
    assert(mapping_ok(c, si, mi));
    lemma_spec_find(c.devices, m.device_id);
    let di = spec_find(c.devices, m.device_id)->Some_0;
    let op = strip_op(c.devices, strip, mi);
    let oi = op_index(c, si, mi);
    lemma_op_at_index(c, si, mi);
    crate::connector::model::lemma_pixels_before_nonneg(strip.mappings, mi);
    crate::connector::model::lemma_leds_before_nonneg(
        c.devices[di].1.lengths,
        m.strip_id as int,
    );
    let k = op.start + j;
    assert(op_covers(c.devices, op, di, k));
    assert forall|oj: int| 0 <= oj < all_ops(c).len() && oj != oi implies !op_covers(
        c.devices,
        #[trigger] all_ops(c)[oj],
        di,
        k,
    ) by {
        assert(op_covers(c.devices, all_ops(c)[oi], di, k));
    }
    lemma_last_cover_unique(c.devices, all_ops(c), oi, di, k);
    lemma_apply_ops_byte(c.devices, c.devices, all_ops(c), di, k);
}

/// Law: a device byte that no mapping addresses keeps its prior value
/// through the copy phase.
pub proof fn lemma_write_frame(c: ConnectorV, di: int, k: int)
    requires
        0 <= di < c.devices.len(),
        0 <= k < c.devices[di].1.buffer.len(),
        forall|si: int, mi: int|
            0 <= si < c.strips.len() && 0 <= mi < c.strips[si].1.mappings.len() ==> !op_covers(
                c.devices,
                #[trigger] strip_op(c.devices, c.strips[si].1, mi),
                di,
                k,
            ),
    ensures
        spec_write(c).devices[di].1.buffer[k] == c.devices[di].1.buffer[k],
{
    assert(ops_upto(c, 0).len() == 0);
    assert forall|oi: int| 0 <= oi < all_ops(c).len() implies !op_covers(
        c.devices,
        #[trigger] all_ops(c)[oi],
        di,
        k,
    ) by {
        let pair = lemma_index_to_pair(c, oi, 0);
        lemma_op_at_index(c, pair.0, pair.1);
    }
    lemma_last_cover_none(c.devices, all_ops(c), di, k);
    lemma_apply_ops_byte(c.devices, c.devices, all_ops(c), di, k);
}

} // verus!
