//! The application's configuration, as plain data.
//!
//! Loading the document from disk and parsing it stays with the embedding
//! application; these types are what the parsed document describes. The
//! helpers here turn configured strips into connector strips — the pure
//! part of applying (or re-applying, on recovery) a configuration.

use vstd::prelude::*;

use crate::connector;
use crate::idmap::spec_find;

verus! {

/// The whole configuration.
pub struct Configuration {
    /// Devices and virtual strips.
    pub connector: Connector,
    /// The capture sessions.
    pub screencopy: Screencopy,
    /// The render programs.
    pub render_pipeline: RenderPipeline,
    /// Frames per second the pipeline is driven at.
    pub fps: u32,
    /// Log verbosity, by name.
    pub log_level: String,
}

/// Connector section: the physical devices and the virtual strips.
pub struct Connector {
    /// The physical devices.
    pub devices: Vec<Device>,
    /// The virtual strips.
    pub strips: Vec<Strip>,
}

/// One physical device: a microcontroller driving LED strips over a serial
/// port.
pub struct Device {
    /// Unique device id.
    pub id: u64,
    /// Path of the serial port.
    pub port: String,
    /// Baud rate of the serial connection.
    pub baud_rate: u32,
    /// The physical strips wired to the device, in order.
    pub physical_strips: Vec<PhysicalStrip>,
}

/// One physical LED strip on a device.
#[derive(Clone, Copy, PartialEq, Eq, Structural, Debug)]
pub struct PhysicalStrip {
    /// Number of LEDs on the strip.
    pub leds: u16,
}

/// One virtual strip and how it lands on physical strips.
pub struct Strip {
    /// Unique strip id.
    pub id: u64,
    /// Number of LEDs on the virtual strip.
    pub leds: u16,
    /// Ordered mappings onto physical strips; their lengths should total
    /// `leds`.
    pub mappings: Vec<Mapping>,
}

/// One segment of a virtual strip on a physical strip.
#[derive(Clone, Copy, PartialEq, Eq, Structural, Debug)]
pub struct Mapping {
    /// Id of the device the physical strip is wired to.
    pub device_id: u64,
    /// Index of the physical strip on that device.
    pub physical_strip_idx: u8,
    /// First LED of the segment on the physical strip.
    pub offset: u16,
    /// Number of LEDs in the segment.
    pub length: u16,
}

/// Screencopy section: the GPU allocator device and the capture sessions.
pub struct Screencopy {
    /// Path of the GPU memory allocator device.
    pub gbm_device: String,
    /// The capture sessions.
    pub capture_sessions: Vec<CaptureSession>,
}

/// One configured capture session.
pub struct CaptureSession {
    /// Unique session id.
    pub id: u64,
    /// The output to capture: matched by exact name first, then by
    /// description occurring in this text.
    pub output: String,
    /// The region of the output to capture.
    pub region: Region,
}

/// A rectangle on an output, in compositor-scaled coordinates.
#[derive(Clone, Copy, PartialEq, Eq, Structural, Debug)]
pub struct Region {
    /// Left edge.
    pub left: i32,
    /// Top edge.
    pub top: i32,
    /// Width.
    pub width: i32,
    /// Height.
    pub height: i32,
}

/// Render section: the programs.
pub struct RenderPipeline {
    /// The render programs.
    pub programs: Vec<Program>,
}

/// One configured render program.
pub struct Program {
    /// Unique program id.
    pub id: u64,
    /// Path of the fragment shader source.
    pub fragment_shader: String,
    /// Path of the vertex shader source.
    pub vertex_shader: String,
    /// Capture-session ids used as textures, in binding order.
    pub capture_sessions: Vec<u64>,
    /// Id of the virtual strip the program renders.
    pub strip_id: u64,
}

/// The connector mapping a configured mapping stands for.
pub open spec fn spec_connector_mapping(m: Mapping) -> connector::Mapping {
    connector::Mapping {
        device_id: m.device_id,
        strip_id: m.physical_strip_idx,
        offset: m.offset,
        length: m.length,
    }
}

/// The connector strip a configured strip stands for: a zeroed pixel buffer
/// of three bytes per LED and the configured mappings in order.
pub open spec fn spec_connector_strip(leds: u16, mappings: Seq<Mapping>) -> connector::model::StripV {
    connector::model::StripV {
        mappings: mappings.map_values(|m: Mapping| spec_connector_mapping(m)),
        buffer: Seq::new((3 * leds) as nat, |i: int| 0u8),
    }
}

/// (Re)creates a virtual strip from its configuration: builds the connector
/// strip — fresh zeroed buffer, configured mappings in order — and installs
/// it under the configured id, replacing any prior strip.
pub fn recreate_strip(strip: &Strip, connector: &mut connector::Connector)
    requires
        old(connector).wf(),
    ensures
        final(connector).wf(),
        final(connector)@.devices == old(connector)@.devices,
        final(connector)@.strips == match spec_find(old(connector)@.strips, strip.id) {
            Some(i) => old(connector)@.strips.update(
                i,
                (strip.id, spec_connector_strip(strip.leds, strip.mappings@)),
            ),
            None => old(connector)@.strips.push(
                (strip.id, spec_connector_strip(strip.leds, strip.mappings@)),
            ),
        },
{
    let mut s = connector::Strip::new(strip.leds);
    let n = strip.mappings.len();
    let mut k: usize = 0;
    proof {
        assert(s@.mappings =~= strip.mappings@.take(0).map_values(
            |m: Mapping| spec_connector_mapping(m),
        ));
    }
    while k < n
        invariant
            n == strip.mappings@.len(),
            k <= n,
            s@.buffer == Seq::new((3 * strip.leds) as nat, |i: int| 0u8),
            s@.mappings == strip.mappings@.take(k as int).map_values(
                |m: Mapping| spec_connector_mapping(m),
            ),
        decreases n - k,
    {
        let m = strip.mappings[k];
        s.map(connector::Mapping::new(m.device_id, m.physical_strip_idx, m.offset, m.length));
        k = k + 1;
        proof {
            assert(s@.mappings =~= strip.mappings@.take(k as int).map_values(
                |m: Mapping| spec_connector_mapping(m),
            ));
        }
    }
    proof {
        assert(strip.mappings@.take(n as int) =~= strip.mappings@);
    }
    connector.set_strip(strip.id, s);
}

/// Position of the first configured strip with this id, if any.
pub open spec fn spec_find_strip(strips: Seq<Strip>, id: u64) -> Option<int>
    decreases strips.len(),
{
    if strips.len() == 0 {
        None
    } else if strips[0].id == id {
        Some(0)
    } else {
        match spec_find_strip(strips.drop_first(), id) {
            None => None,
            Some(i) => Some(i + 1),
        }
    }
}

proof fn lemma_find_strip_hit(strips: Seq<Strip>, id: u64, i: int)
    requires
        0 <= i < strips.len(),
        strips[i].id == id,
        forall|j: int| 0 <= j < i ==> (#[trigger] strips[j]).id != id,
    ensures
        spec_find_strip(strips, id) == Some(i),
    decreases strips.len(),
{
    if i > 0 {
        assert forall|j: int| 0 <= j < i - 1 implies (#[trigger] strips.drop_first()[j]).id
            != id by {
            assert(strips.drop_first()[j] == strips[j + 1]);
        }
        assert(strips.drop_first()[i - 1] == strips[i]);
        lemma_find_strip_hit(strips.drop_first(), id, i - 1);
    }
}

proof fn lemma_find_strip_none(strips: Seq<Strip>, id: u64)
    requires
        forall|j: int| 0 <= j < strips.len() ==> (#[trigger] strips[j]).id != id,
    ensures
        spec_find_strip(strips, id) is None,
    decreases strips.len(),
{
    if strips.len() > 0 {
        assert forall|j: int| 0 <= j < strips.drop_first().len() implies (
        #[trigger] strips.drop_first()[j]).id != id by {
            assert(strips.drop_first()[j] == strips[j + 1]);
        }
        lemma_find_strip_none(strips.drop_first(), id);
    }
}

/// LED count of the first configured strip with this id — what a program's
/// framebuffer is sized from. `None` is a configuration error.
pub fn find_strip_leds(strips: &Vec<Strip>, strip_id: u64) -> (r: Option<u16>)
    ensures
        match r {
            Some(l) => spec_find_strip(strips@, strip_id) is Some && l == strips@[spec_find_strip(
                strips@,
                strip_id,
            )->Some_0].leds,
            None => spec_find_strip(strips@, strip_id) is None,
        },
{
    let mut i: usize = 0;
    while i < strips.len()
        invariant
            i <= strips@.len(),
            forall|j: int| 0 <= j < i ==> (#[trigger] strips@[j]).id != strip_id,
        decreases strips@.len() - i,
    {
        if strips[i].id == strip_id {
            proof {
                lemma_find_strip_hit(strips@, strip_id, i as int);
            }
            return Some(strips[i].leds);
        }
        i = i + 1;
    }
    proof {
        lemma_find_strip_none(strips@, strip_id);
    }
    None
}

} // verus!
