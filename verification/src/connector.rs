//! Connector between physical LED devices and virtual strips.
//!
//! A [`Device`] owns one byte buffer sized to its physical strips; a
//! [`Strip`] owns a pixel buffer and an ordered list of [`Mapping`]s that
//! place it onto devices. [`Connector::write`] runs the copy phase: every
//! strip's pixels are copied, mapping by mapping, into the addressed device
//! buffers. Flushing a device buffer to its transport is the embedding
//! application's step; [`Connector::device_buffer_at`] hands it the bytes.

pub mod model;
pub mod laws;

use vstd::prelude::*;

use crate::idmap::lemma_spec_find;
use crate::idmap::lemma_spec_find_same_keys;
use crate::idmap::spec_find;
use crate::idmap::IdMap;
use model::ConnectorV;
use model::DeviceV;
use model::StripV;
use model::sum_u16;

verus! {

/// Failures of connector operations. The transport variant is produced by
/// the caller that drives the hardware, carrying the failing device's id.
#[derive(Clone, Copy, PartialEq, Eq, Structural, Debug)]
pub enum ConnectorError {
    /// No strip has the requested id.
    StripNotFound(u64),
    /// A mapping addresses a device id absent from the device list.
    DeviceNotFound(u64),
    /// A mapping of the strip with this id runs outside its strip's or its
    /// device's buffer.
    MappingOutOfRange(u64),
    /// Pixel data of a different size than the strip's buffer was offered.
    SizeMismatch(u64),
    /// Writing a device's buffer to its transport failed.
    TransportError(u64),
}

/// A contiguous run of LEDs on one physical strip of one device: where a
/// slice of a virtual strip lands.
#[derive(Clone, Copy, PartialEq, Eq, Structural, Debug)]
pub struct Mapping {
    /// Id of the addressed device.
    pub device_id: u64,
    /// Index of the physical strip on that device.
    pub strip_id: u8,
    /// First LED of the run, counted on the physical strip.
    pub offset: u16,
    /// Number of LEDs in the run.
    pub length: u16,
}

impl Mapping {
    /// A mapping of `length` LEDs onto physical strip `strip_id` of device
    /// `device_id`, starting `offset` LEDs into that physical strip.
    pub fn new(device_id: u64, strip_id: u8, offset: u16, length: u16) -> (m: Mapping)
        ensures
            m == (Mapping { device_id, strip_id, offset, length }),
    {
        Mapping { device_id, strip_id, offset, length }
    }
}

/// A vector of `n` zero bytes.
fn zero_bytes(n: usize) -> (v: Vec<u8>)
    ensures
        v@ == Seq::new(n as nat, |i: int| 0u8),
{
    let mut v: Vec<u8> = Vec::new();
    let mut i: usize = 0;
    while i < n
        invariant
            i <= n,
            v@ == Seq::new(i as nat, |j: int| 0u8),
        decreases n - i,
    {
        v.push(0u8);
        i = i + 1;
        proof {
            assert(v@ =~= Seq::new(i as nat, |j: int| 0u8));
        }
    }
    v
}

/// One physical output device: an ordered list of physical strip lengths and
/// a byte buffer holding three bytes per LED, physical strips concatenated
/// in declared order. The buffer's size is fixed at construction. The
/// transport that the buffer is flushed to stays with the caller.
pub struct Device {
    lengths: Vec<u16>,
    buffer: Vec<u8>,
}

impl View for Device {
    type V = DeviceV;

    closed spec fn view(&self) -> DeviceV {
        DeviceV { lengths: self.lengths@, buffer: self.buffer@ }
    }
}

/// Sums of longer prefixes are no smaller, and the whole sum bounds them.
proof fn lemma_sum_take_le(s: Seq<u16>, i: int)
    requires
        0 <= i <= s.len(),
    ensures
        sum_u16(s.take(i)) <= sum_u16(s),
        sum_u16(s.take(i)) >= 0,
    decreases s.len(),
{
    if s.len() == 0 {
        assert(s.take(i) =~= s);
    } else if i == s.len() {
        assert(s.take(i) =~= s);
        lemma_sum_take_le(s.drop_last(), s.len() - 1);
        assert(s.drop_last().take(s.len() - 1) =~= s.drop_last());
    } else {
        assert(s.drop_last().take(i) =~= s.take(i));
        lemma_sum_take_le(s.drop_last(), i);
    }
}

impl Device {
    /// Well-formed: the buffer holds exactly three bytes per LED.
    pub open spec fn wf(&self) -> bool {
        self@.wf()
    }

    /// A device for physical strips of the given lengths, with an all-zero
    /// buffer of three bytes per LED. The total byte count must be
    /// addressable.
    pub fn new(lengths: Vec<u16>) -> (d: Device)
        requires
            3 * sum_u16(lengths@) <= usize::MAX,
        ensures
            d@.lengths == lengths@,
            d@.buffer == Seq::new((3 * sum_u16(lengths@)) as nat, |i: int| 0u8),
            d.wf(),
    {
        let mut total: usize = 0;
        let mut i: usize = 0;
        proof {
            assert(lengths@.take(0) =~= Seq::<u16>::empty());
        }
        while i < lengths.len()
            invariant
                i <= lengths@.len(),
                total == sum_u16(lengths@.take(i as int)),
                3 * sum_u16(lengths@) <= usize::MAX,
            decreases lengths@.len() - i,
        {
            proof {
                lemma_sum_take_le(lengths@, i + 1);
                assert(lengths@.take(i + 1).drop_last() =~= lengths@.take(i as int));
                assert(lengths@.take(i + 1).last() == lengths@[i as int]);
            }
            total = total + lengths[i] as usize;
            i = i + 1;
        }
        proof {
            assert(lengths@.take(lengths@.len() as int) =~= lengths@);
        }
        let buffer = zero_bytes(3 * total);
        Device { lengths, buffer }
    }

    /// Total number of LEDs across this device's physical strips.
    fn total_leds(&self) -> (r: usize)
        requires
            self.wf(),
        ensures
            r == sum_u16(self@.lengths),
            3 * sum_u16(self@.lengths) <= usize::MAX,
    {
        self.buffer.len() / 3
    }

    /// Pixel index where physical strip `strip_idx` begins; an index past
    /// the end yields the total, as consuming the length list does.
    fn segment_start(&self, strip_idx: u8) -> (r: usize)
        requires
            self.wf(),
        ensures
            r == model::leds_before(self@.lengths, strip_idx as int),
            r <= sum_u16(self@.lengths),
    {
        let n = self.lengths.len();
        let count: usize = if (strip_idx as usize) < n {
            strip_idx as usize
        } else {
            n
        };
        proof {
            if count == n {
                assert(self.lengths@.take(n as int) =~= self.lengths@);
            }
            assert(self.lengths@.take(0) =~= Seq::<u16>::empty());
        }
        let total_bytes = self.buffer.len();
        let mut total: usize = 0;
        let mut i: usize = 0;
        while i < count
            invariant
                i <= count,
                count <= self.lengths@.len(),
                total == sum_u16(self.lengths@.take(i as int)),
                3 * sum_u16(self.lengths@) == total_bytes,
                self.wf(),
            decreases count - i,
        {
            proof {
                lemma_sum_take_le(self.lengths@, i + 1);
                assert(self.lengths@.take(i + 1).drop_last() =~= self.lengths@.take(i as int));
                assert(self.lengths@.take(i + 1).last() == self.lengths@[i as int]);
            }
            total = total + self.lengths[i] as usize;
            i = i + 1;
        }
        proof {
            lemma_sum_take_le(self.lengths@, count as int);
        }
        total
    }

    /// Copies `byte_len` bytes of `src` starting at `src_start` into this
    /// device's buffer starting at `dst_start`.
    fn copy_span(&mut self, dst_start: usize, src: &Vec<u8>, src_start: usize, byte_len: usize)
        requires
            dst_start + byte_len <= old(self)@.buffer.len(),
            src_start + byte_len <= src@.len(),
        ensures
            final(self)@.lengths == old(self)@.lengths,
            final(self)@.buffer == model::overwrite(
                old(self)@.buffer,
                dst_start as int,
                src@.subrange(src_start as int, src_start + byte_len),
            ),
    {
        let ghost buf0 = self@.buffer;
        proof {
            assert(self.buffer@ =~= model::overwrite(
                buf0,
                dst_start as int,
                src@.subrange(src_start as int, src_start as int),
            ));
        }
        let blen = self.buffer.len();
        let slen = src.len();
        let mut k: usize = 0;
        while k < byte_len
            invariant
                k <= byte_len,
                blen == buf0.len(),
                slen == src@.len(),
                dst_start + byte_len <= buf0.len(),
                src_start + byte_len <= src@.len(),
                self@.lengths == old(self)@.lengths,
                self@.buffer == model::overwrite(
                    buf0,
                    dst_start as int,
                    src@.subrange(src_start as int, src_start + k),
                ),
            decreases byte_len - k,
        {
            self.buffer[dst_start + k] = src[src_start + k];
            k = k + 1;
            proof {
                assert(self.buffer@ =~= model::overwrite(
                    buf0,
                    dst_start as int,
                    src@.subrange(src_start as int, src_start + k),
                ));
            }
        }
        proof {
            assert(self.buffer@ =~= model::overwrite(
                buf0,
                dst_start as int,
                src@.subrange(src_start as int, src_start + byte_len),
            ));
        }
    }
}

/// A virtual LED strip: a pixel buffer of three bytes per LED and an ordered
/// list of mappings that place its pixels onto devices.
pub struct Strip {
    mappings: Vec<Mapping>,
    buffer: Vec<u8>,
}

impl View for Strip {
    type V = StripV;

    closed spec fn view(&self) -> StripV {
        StripV { mappings: self.mappings@, buffer: self.buffer@ }
    }
}

impl Strip {
    /// A strip of `length` LEDs with an all-zero pixel buffer and no
    /// mappings yet.
    pub fn new(length: u16) -> (s: Strip)
        ensures
            s@.mappings == Seq::<Mapping>::empty(),
            s@.buffer == Seq::new((3 * length) as nat, |i: int| 0u8),
    {
        let buffer = zero_bytes(3 * (length as usize));
        Strip { mappings: Vec::new(), buffer }
    }

    /// Appends a mapping; mappings apply in the order they were added.
    pub fn map(&mut self, mapping: Mapping)
        ensures
            final(self)@.mappings == old(self)@.mappings.push(mapping),
            final(self)@.buffer == old(self)@.buffer,
    {
        self.mappings.push(mapping);
    }

    /// Mutable access to the pixel buffer; the mappings stay. A caller that
    /// resizes the buffer shifts what the mappings can address, which the
    /// write phase checks and reports as a range error.
    pub fn get_mut(&mut self) -> (r: &mut Vec<u8>)
        ensures
            r@ == old(self)@.buffer,
            final(self)@.buffer == final(r)@,
            final(self)@.mappings == old(self)@.mappings,
    {
        &mut self.buffer
    }
}

/// Owns all devices and strips by id and runs the copy phase that moves
/// strip pixels into device buffers.
pub struct Connector {
    devices: IdMap<Device>,
    strips: IdMap<Strip>,
}

impl View for Connector {
    type V = ConnectorV;

    closed spec fn view(&self) -> ConnectorV {
        ConnectorV {
            devices: self.devices@.map_values(|p: (u64, Device)| (p.0, p.1@)),
            strips: self.strips@.map_values(|p: (u64, Strip)| (p.0, p.1@)),
        }
    }
}

impl Connector {
    /// Well-formed: unique ids on both sides, every device well-formed.
    pub closed spec fn wf(&self) -> bool {
        &&& self.devices.wf()
        &&& self.strips.wf()
        &&& forall|i: int|
            0 <= i < self.devices@.len() ==> (#[trigger] self.devices@[i]).1.wf()
    }

    /// An empty connector.
    pub fn new() -> (r: Connector)
        ensures
            r@.devices == Seq::<(u64, DeviceV)>::empty(),
            r@.strips == Seq::<(u64, StripV)>::empty(),
            r.wf(),
    {
        let r = Connector { devices: IdMap::new(), strips: IdMap::new() };
        proof {
            assert(r@.devices =~= Seq::<(u64, DeviceV)>::empty());
            assert(r@.strips =~= Seq::<(u64, StripV)>::empty());
        }
        r
    }

    /// Inserts or replaces the device with this id.
    pub fn set_device(&mut self, id: u64, device: Device)
        requires
            old(self).wf(),
            device@.wf(),
        ensures
            final(self).wf(),
            final(self)@.strips == old(self)@.strips,
            final(self)@.devices == match spec_find(old(self)@.devices, id) {
                Some(i) => old(self)@.devices.update(i, (id, device@)),
                None => old(self)@.devices.push((id, device@)),
            },
    {
        proof {
            lemma_view_keys(*self);
            lemma_spec_find_same_keys(self.devices@, self@.devices, id);
        }
        let ghost pre = *self;
        proof {
            lemma_spec_find_same_keys(pre.devices@, pre@.devices, id);
            lemma_spec_find(pre.devices@, id);
        }
        self.devices.insert(id, device);
        proof {
            lemma_view_keys(pre);
            lemma_view_keys(*self);
            assert forall|j: int| 0 <= j < self.devices@.len() implies (#[trigger] self.devices@[
            j]).1.wf() by {
                match spec_find(pre.devices@, id) {
                    Some(i) => {
                        if j != i {
                            assert(self.devices@[j] == pre.devices@[j]);
                        }
                    },
                    None => {
                        if j < pre.devices@.len() {
                            assert(self.devices@[j] == pre.devices@[j]);
                        }
                    },
                }
            }
            match spec_find(pre@.devices, id) {
                Some(i) => {
                    assert(self@.devices =~= pre@.devices.update(i, (id, device@)));
                },
                None => {
                    assert(self@.devices =~= pre@.devices.push((id, device@)));
                },
            }
            assert(self@.strips =~= pre@.strips);
        }
    }

    /// Inserts or replaces the strip with this id.
    pub fn set_strip(&mut self, id: u64, strip: Strip)
        requires
            old(self).wf(),
        ensures
            final(self).wf(),
            final(self)@.devices == old(self)@.devices,
            final(self)@.strips == match spec_find(old(self)@.strips, id) {
                Some(i) => old(self)@.strips.update(i, (id, strip@)),
                None => old(self)@.strips.push((id, strip@)),
            },
    {
        proof {
            lemma_view_keys(*self);
            lemma_spec_find_same_keys(self.strips@, self@.strips, id);
        }
        let ghost pre = *self;
        proof {
            lemma_spec_find_same_keys(pre.strips@, pre@.strips, id);
            lemma_spec_find(pre.strips@, id);
        }
        self.strips.insert(id, strip);
        proof {
            lemma_view_keys(pre);
            lemma_view_keys(*self);
            match spec_find(pre@.strips, id) {
                Some(i) => {
                    assert(self@.strips =~= pre@.strips.update(i, (id, strip@)));
                },
                None => {
                    assert(self@.strips =~= pre@.strips.push((id, strip@)));
                },
            }
            assert(self@.devices =~= pre@.devices);
        }
    }

    /// Mutable access to the pixel buffer of the strip with this id, for the
    /// render step to fill. Fails when no strip has the id.
    pub fn mutate_strip(&mut self, id: u64) -> (r: Result<&mut Vec<u8>, ConnectorError>)
        requires
            old(self).wf(),
        ensures
            final(self).wf(),
            final(self)@.devices =~= old(self)@.devices,
            match r {
                Ok(b) => {
                    &&& spec_find(old(self)@.strips, id) is Some
                    &&& {
                        let i = spec_find(old(self)@.strips, id)->Some_0;
                        &&& b@ == old(self)@.strips[i].1.buffer
                        &&& final(self)@.strips =~= old(self)@.strips.update(
                            i,
                            (
                                id,
                                StripV {
                                    mappings: old(self)@.strips[i].1.mappings,
                                    buffer: final(b)@,
                                },
                            ),
                        )
                    }
                },
                Err(e) => {
                    &&& e == ConnectorError::StripNotFound(id)
                    &&& spec_find(old(self)@.strips, id) is None
                    &&& final(self)@.strips =~= old(self)@.strips
                },
            },
    {
        proof {
            lemma_view_keys(*self);
            lemma_spec_find_same_keys(self.strips@, self@.strips, id);
        }
        let found = self.strips.index_of(id);
        match found {
            Some(i) => {
                proof {
                    lemma_view_keys(*self);
                    lemma_spec_find(self.strips@, id);
                }
                let r = self.strips.val_at_mut(i).get_mut();
                Ok(r)
            },
            None => Err(ConnectorError::StripNotFound(id)),
        }
    }

    /// Stores one rendered frame into the strip with this id: every byte of
    /// the strip's pixel buffer is overwritten by `pixels`, which must hold
    /// exactly the buffer's size. Nothing changes on failure.
    pub fn store_strip(&mut self, id: u64, pixels: &Vec<u8>) -> (r: Result<(), ConnectorError>)
        requires
            old(self).wf(),
        ensures
            final(self).wf(),
            final(self)@.devices =~= old(self)@.devices,
            match r {
                Ok(()) => {
                    &&& spec_find(old(self)@.strips, id) is Some
                    &&& {
                        let i = spec_find(old(self)@.strips, id)->Some_0;
                        &&& pixels@.len() == old(self)@.strips[i].1.buffer.len()
                        &&& final(self)@.strips =~= old(self)@.strips.update(
                            i,
                            (
                                id,
                                StripV {
                                    mappings: old(self)@.strips[i].1.mappings,
                                    buffer: pixels@,
                                },
                            ),
                        )
                    }
                },
                Err(ConnectorError::StripNotFound(s)) => {
                    &&& s == id
                    &&& spec_find(old(self)@.strips, id) is None
                    &&& final(self)@.strips =~= old(self)@.strips
                },
                Err(e) => {
                    &&& e == ConnectorError::SizeMismatch(id)
                    &&& spec_find(old(self)@.strips, id) is Some
                    &&& pixels@.len() != old(self)@.strips[spec_find(
                        old(self)@.strips,
                        id,
                    )->Some_0].1.buffer.len()
                    &&& final(self)@.strips =~= old(self)@.strips
                },
            },
    {
        proof {
            lemma_view_keys(*self);
            lemma_spec_find_same_keys(self.strips@, self@.strips, id);
        }
        let found = self.strips.index_of(id);
        match found {
            None => Err(ConnectorError::StripNotFound(id)),
            Some(i) => {
                proof {
                    lemma_view_keys(*self);
                    lemma_spec_find(self.strips@, id);
                }
                if self.strips.val_at(i).buffer.len() != pixels.len() {
                    return Err(ConnectorError::SizeMismatch(id));
                }
                let ghost pre = *self;
                let b = self.strips.val_at_mut(i).get_mut();
                let n = pixels.len();
                let mut k: usize = 0;
                while k < n
                    invariant
                        n == pixels@.len(),
                        b@.len() == n,
                        k <= n,
                        forall|j: int| 0 <= j < k ==> b@[j] == pixels@[j],
                    decreases n - k,
                {
                    b[k] = pixels[k];
                    k = k + 1;
                }
                proof {
                    assert(b@ =~= pixels@);
                }
                Ok(())
            },
        }
    }

    /// Drops every device and strip.
    pub fn reset(&mut self)
        ensures
            final(self)@.devices == Seq::<(u64, DeviceV)>::empty(),
            final(self)@.strips == Seq::<(u64, StripV)>::empty(),
            final(self).wf(),
    {
        self.devices.clear();
        self.strips.clear();
        proof {
            assert(self@.devices =~= Seq::<(u64, DeviceV)>::empty());
            assert(self@.strips =~= Seq::<(u64, StripV)>::empty());
        }
    }

    /// The copy phase: for every strip in insertion order, for every of its
    /// mappings in order, the next `3 × length` bytes of the strip's pixel
    /// buffer are copied into the addressed device's buffer, at three bytes
    /// per LED past the start of the addressed physical strip plus the
    /// mapping's offset. The devices end up exactly as
    /// [`model::spec_write`] describes. When a mapping addresses a missing
    /// device or runs outside a buffer, the first such failure (in scan
    /// order) is returned and nothing is changed. Flushing the device
    /// buffers to their transports is the caller's step, via
    /// [`Connector::device_buffer_at`].
    pub fn write(&mut self) -> (r: Result<(), ConnectorError>)
        requires
            old(self).wf(),
        ensures
            final(self).wf(),
            match r {
                Ok(()) => model::write_error(old(self)@) is None && final(self)@
                    == model::spec_write(old(self)@),
                Err(e) => model::write_error(old(self)@) == Some(e) && *final(self) == *old(self),
            },
    {
        let ghost c0 = self@;
        let scount = self.strips.len();
        proof {
            lemma_view_keys(*self);
        }
        // Validation pass: find the first unaddressable mapping, if any.
        let mut si: usize = 0;
        while si < scount
            invariant
                self == old(self),
                self.wf(),
                c0 == self@,
                scount == c0.strips.len(),
                si <= scount,
                model::write_error_from(c0, si as int, 0) == model::write_error(c0),
            decreases scount - si,
        {
            proof {
                lemma_view_keys(*self);
            }
            let mcount = self.strips.val_at(si).mappings.len();
            let sbuf_len = self.strips.val_at(si).buffer.len();
            let ghost mappings = c0.strips[si as int].1.mappings;
            let mut c: usize = 0;
            let mut mi: usize = 0;
            while mi < mcount
                invariant
                    self == old(self),
                    self.wf(),
                    c0 == self@,
                    scount == c0.strips.len(),
                    si < scount,
                    mappings == c0.strips[si as int].1.mappings,
                    mcount == mappings.len(),
                    sbuf_len == c0.strips[si as int].1.buffer.len(),
                    mi <= mcount,
                    c == model::pixels_before(mappings, mi as int),
                    3 * c <= sbuf_len,
                    model::write_error_from(c0, si as int, mi as int) == model::write_error(c0),
                decreases mcount - mi,
            {
                proof {
                    lemma_view_keys(*self);
                }
                let m: Mapping = self.strips.val_at(si).mappings[mi];
                proof {
                    assert(m == mappings[mi as int]);
                    lemma_spec_find_same_keys(self.devices@, c0.devices, m.device_id);
                    lemma_spec_find(self.devices@, m.device_id);
                }
                let dfound = self.devices.index_of(m.device_id);
                match dfound {
                    None => {
                        return Err(ConnectorError::DeviceNotFound(m.device_id));
                    },
                    Some(di) => {
                        proof {
                            lemma_spec_find(self.devices@, m.device_id);
                        }
                        let need_px = c + m.length as usize;
                        let src_ok = need_px <= sbuf_len / 3;
                        let dev = self.devices.val_at(di);
                        let seg = dev.segment_start(m.strip_id);
                        let dtotal = dev.total_leds();
                        let need_dev = seg + m.offset as usize + m.length as usize;
                        let dst_ok = need_dev <= dtotal;
                        proof {
                            assert(3 * need_px <= sbuf_len <==> need_px <= sbuf_len / 3);
                            assert(c0.devices[di as int].1 == dev@);
                            assert(model::mapping_ok(c0, si as int, mi as int) <==> (src_ok
                                && dst_ok));
                        }
                        if src_ok && dst_ok {
                            c = need_px;
                            mi = mi + 1;
                        } else {
                            let sid = self.strips.key_at(si);
                            proof {
                                assert(sid == c0.strips[si as int].0);
                            }
                            return Err(ConnectorError::MappingOutOfRange(sid));
                        }
                    },
                }
            }
            si = si + 1;
        }
        proof {
            assert(model::write_error(c0) is None);
        }
        // Copy pass: every mapping is addressable; apply them in order.
        let ghost m0 = c0.devices;
        proof {
            assert(model::ops_upto(c0, 0) =~= Seq::<model::CopyOp>::empty());
        }
        let mut si: usize = 0;
        while si < scount
            invariant
                self.wf(),
                old(self).wf(),
                c0 == old(self)@,
                m0 == c0.devices,
                self@.strips == c0.strips,
                scount == c0.strips.len(),
                si <= scount,
                model::write_error(c0) is None,
                self@.devices == model::apply_ops(m0, model::ops_upto(c0, si as int)),
            decreases scount - si,
        {
            proof {
                lemma_view_keys(*self);
            }
            let mcount = self.strips.val_at(si).mappings.len();
            let ghost strip = c0.strips[si as int].1;
            let mut c: usize = 0;
            let mut mi: usize = 0;
            proof {
                assert(model::ops_upto(c0, si as int) + model::ops_of_strip(
                    c0.devices,
                    strip,
                ).take(0) =~= model::ops_upto(c0, si as int));
            }
            while mi < mcount
                invariant
                    self.wf(),
                    old(self).wf(),
                    c0 == old(self)@,
                    m0 == c0.devices,
                    self@.strips == c0.strips,
                    scount == c0.strips.len(),
                    si < scount,
                    strip == c0.strips[si as int].1,
                    mcount == strip.mappings.len(),
                    mi <= mcount,
                    c == model::pixels_before(strip.mappings, mi as int),
                    model::write_error(c0) is None,
                    self@.devices == model::apply_ops(
                        m0,
                        model::ops_upto(c0, si as int) + model::ops_of_strip(
                            c0.devices,
                            strip,
                        ).take(mi as int),
                    ),
                decreases mcount - mi,
            {
                proof {
                    model::lemma_scan_none_ok(c0, 0, 0, si as int, mi as int);
                    model::lemma_apply_ops_shape(
                        m0,
                        model::ops_upto(c0, si as int) + model::ops_of_strip(
                            c0.devices,
                            strip,
                        ).take(mi as int),
                    );
                    lemma_view_keys(*self);
                }
                let m: Mapping = self.strips.val_at(si).mappings[mi];
                proof {
                    assert(m == strip.mappings[mi as int]);
                    lemma_spec_find_same_keys(self.devices@, self@.devices, m.device_id);
                    lemma_spec_find_same_keys(self@.devices, c0.devices, m.device_id);
                    lemma_spec_find(self.devices@, m.device_id);
                    lemma_spec_find(c0.devices, m.device_id);
                }
                let dfound = self.devices.index_of(m.device_id);
                let di: usize = match dfound {
                    Some(d) => d,
                    None => {
                        proof {
                            assert(false);
                        }
                        0
                    },
                };
                let dev = self.devices.val_at(di);
                let seg = dev.segment_start(m.strip_id);
                let dtotal = dev.total_leds();
                proof {
                    assert(model::mapping_ok(c0, si as int, mi as int));
                    assert(seg + m.offset as usize + m.length as usize <= dtotal);
                }
                let dst = 3 * (seg + m.offset as usize);
                let blen = 3 * (m.length as usize);
                let sblen = self.strips.val_at(si).buffer.len();
                proof {
                    assert(3 * c + blen <= sblen);
                }
                let src = 3 * c;
                let ghost devs_pre = self@.devices;
                let ghost op = model::strip_op(c0.devices, strip, mi as int);
                proof {
                    assert(dev@.lengths == c0.devices[di as int].1.lengths);
                    assert(dst == op.start);
                }
                let sbuf = &self.strips.val_at(si).buffer;
                self.devices.val_at_mut(di).copy_span(dst, sbuf, src, blen);
                proof {
                    lemma_view_keys(*self);
                    assert(op.bytes =~= sbuf@.subrange(src as int, src + blen));
                    assert(self@.devices =~= model::apply_op(devs_pre, op));
                    model::lemma_apply_ops_snoc(
                        m0,
                        model::ops_upto(c0, si as int) + model::ops_of_strip(
                            c0.devices,
                            strip,
                        ).take(mi as int),
                        op,
                    );
                    assert((model::ops_upto(c0, si as int) + model::ops_of_strip(
                        c0.devices,
                        strip,
                    ).take(mi as int)).push(op) =~= model::ops_upto(c0, si as int)
                        + model::ops_of_strip(c0.devices, strip).take(mi + 1));
                }
                c = c + m.length as usize;
                mi = mi + 1;
            }
            proof {
                assert(model::ops_of_strip(c0.devices, strip).take(mcount as int)
                    =~= model::ops_of_strip(c0.devices, strip));
                assert(model::ops_upto(c0, si + 1) == model::ops_upto(c0, si as int)
                    + model::ops_of_strip(c0.devices, strip));
            }
            si = si + 1;
        }
        proof {
            assert(self@.devices == model::apply_ops(m0, model::all_ops(c0)));
            assert(self@ == model::spec_write(c0));
        }
        Ok(())
    }

    /// Number of devices.
    pub fn device_count(&self) -> (r: usize)
        ensures
            r == self@.devices.len(),
    {
        self.devices.len()
    }

    /// Id of the device at position `i` (insertion order).
    pub fn device_id_at(&self, i: usize) -> (r: u64)
        requires
            i < self@.devices.len(),
        ensures
            r == self@.devices[i as int].0,
    {
        self.devices.key_at(i)
    }

    /// The bytes the device at position `i` would flush to its transport.
    pub fn device_buffer_at(&self, i: usize) -> (r: &Vec<u8>)
        requires
            i < self@.devices.len(),
        ensures
            r@ == self@.devices[i as int].1.buffer,
    {
        &self.devices.val_at(i).buffer
    }
}

/// The view keeps lengths and keys of both containers.
proof fn lemma_view_keys(c: Connector)
    ensures
        c@.devices.len() == c.devices@.len(),
        c@.strips.len() == c.strips@.len(),
        forall|i: int|
            0 <= i < c.devices@.len() ==> (#[trigger] c@.devices[i]).0 == c.devices@[i].0
                && c@.devices[i].1 == c.devices@[i].1@,
        forall|i: int|
            0 <= i < c.strips@.len() ==> (#[trigger] c@.strips[i]).0 == c.strips@[i].0
                && c@.strips[i].1 == c.strips@[i].1@,
{
}

} // verus!
