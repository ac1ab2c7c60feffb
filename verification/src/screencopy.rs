//! Screen-capture protocol state machine.
//!
//! The compositor protocol is asynchronous: every mutating request is
//! answered by events. It is consumed synchronously here — one request,
//! then a blocking wait for its terminal event. This module holds that
//! round structure as an explicit state machine: a [`CaptureSession`]
//! hands the driver the next protocol step to perform and consumes the
//! terminal event the compositor answered with. The driver (which owns the
//! compositor connection, the GPU allocator, and the protocol objects,
//! addressed here by opaque `u64` handles) performs each step and feeds the
//! answer back. Every decision — pessimistic failure marking, buffer reuse
//! against reallocation, and the sticky failure flag — is made here.

use vstd::prelude::*;

use crate::idmap::lemma_spec_find;
use crate::idmap::spec_find;
use crate::idmap::IdMap;

verus! {

/// Information the compositor reports about an output. Not every field is
/// guaranteed to be announced.
pub struct OutputInfo {
    /// The output's name.
    pub name: Option<String>,
    /// The output's description (often unset).
    pub description: Option<String>,
    /// Width, height, and refresh rate in mHz.
    pub mode: Option<(i32, i32, i32)>,
}

impl OutputInfo {
    /// An output nothing has been learned about yet.
    pub fn default() -> (r: OutputInfo)
        ensures
            r.name is None,
            r.description is None,
            r.mode is None,
    {
        OutputInfo { name: None, description: None, mode: None }
    }
}

/// Failures of the capture subsystem.
#[derive(Clone, Copy, PartialEq, Eq, Structural, Debug)]
pub enum CaptureError {
    /// The compositor lacks the region-capture or the zero-copy
    /// buffer-import extension.
    MissingCapability,
    /// No session has the requested id.
    SessionNotFound(u64),
    /// The session is marked failed; it must be replaced, not retried.
    SessionFailed,
    /// The compositor answered the region-capture request with a failure.
    CaptureRequestFailed,
    /// The compositor could not create the client buffer handle.
    BufferCreationFailed,
    /// The copy into the client buffer failed.
    CopyFailed,
}

/// Whether a usable client buffer handle exists. Reuse against reallocation
/// is decided on this tag, never on an implicit null check.
#[derive(Clone, Copy, PartialEq, Eq, Structural, Debug)]
pub enum BufferState {
    /// No client buffer yet: the next round must allocate one.
    Uninitialized,
    /// A client buffer (and its backing GPU buffer object) exists under
    /// this driver-side handle and is reused.
    Ready(u64),
}

/// Where the session stands inside one capture round.
#[derive(Clone, Copy, PartialEq, Eq, Structural, Debug)]
pub enum CapturePhase {
    /// Between rounds.
    Idle,
    /// A region capture was requested; the frame's reply is awaited.
    AwaitingFrame,
    /// A client buffer was requested; its creation reply is awaited.
    AwaitingBuffer,
    /// A copy was requested; its completion reply is awaited.
    AwaitingCopy,
}

/// The terminal reply to a region-capture request.
#[derive(Clone, Copy, PartialEq, Eq, Structural, Debug)]
pub enum FrameEvent {
    /// The compositor negotiated a GPU-importable buffer: pixel format
    /// (fourcc) and size.
    DmabufNegotiated { fourcc: u32, width: u32, height: u32 },
    /// The capture failed.
    Failed,
}

/// The terminal reply to a client-buffer creation request.
#[derive(Clone, Copy, PartialEq, Eq, Structural, Debug)]
pub enum BufferEvent {
    /// The buffer exists; the driver filed it under this handle.
    Created { handle: u64 },
    /// The buffer could not be created.
    Failed,
}

/// The terminal reply to a copy request.
#[derive(Clone, Copy, PartialEq, Eq, Structural, Debug)]
pub enum CopyEvent {
    /// The frame was copied into the buffer.
    Ready,
    /// The copy failed.
    Failed,
}

/// The next protocol step the driver must perform for a session.
#[derive(Clone, Copy, PartialEq, Eq, Structural, Debug)]
pub enum CaptureStep {
    /// Destroy the previous round's frame handle if told so — frames are
    /// single-use — then request a region capture of the session's region
    /// on its output and wait for the frame's terminal event.
    RequestFrame { destroy_previous: bool, output: u64, x: i32, y: i32, width: i32, height: i32 },
    /// Allocate a GPU buffer object of the negotiated format and size, wrap
    /// its device-memory descriptor into compositor buffer parameters,
    /// request a client buffer handle, and wait for the terminal event.
    CreateBuffer { fourcc: u32, width: u32, height: u32 },
    /// Request the copy into the client buffer under this handle and wait
    /// for the terminal event.
    CopyFrame { handle: u64 },
}

/// Spec-level image of a capture session.
pub struct SessionV {
    pub output: u64,
    pub x: i32,
    pub y: i32,
    pub width: i32,
    pub height: i32,
    pub negotiated: Option<(u32, u32, u32)>,
    pub buffer: BufferState,
    pub frame: bool,
    pub failed: bool,
    pub phase: CapturePhase,
}

/// Starting a round: a failed session refuses immediately and unchanged;
/// otherwise the session is pessimistically marked failed, the single-use
/// frame handle of the previous round is scheduled for destruction, and the
/// driver is told to request the region capture. The client buffer and the
/// negotiated parameters are kept.
pub open spec fn spec_begin(s: SessionV) -> (SessionV, Result<CaptureStep, CaptureError>) {
    if s.failed {
        (s, Err(CaptureError::SessionFailed))
    } else {
        (
            SessionV { failed: true, frame: true, phase: CapturePhase::AwaitingFrame, ..s },
            Ok(
                CaptureStep::RequestFrame {
                    destroy_previous: s.frame,
                    output: s.output,
                    x: s.x,
                    y: s.y,
                    width: s.width,
                    height: s.height,
                },
            ),
        )
    }
}

/// Consuming the frame's reply: a failure leaves the session failed; a
/// negotiation is recorded, and the round continues with a copy when a
/// client buffer already exists (reuse, no reallocation) or with a buffer
/// allocation when none does.
pub open spec fn spec_frame_event(s: SessionV, ev: FrameEvent) -> (
    SessionV,
    Result<CaptureStep, CaptureError>,
) {
    match ev {
        FrameEvent::Failed => (
            SessionV { phase: CapturePhase::Idle, ..s },
            Err(CaptureError::CaptureRequestFailed),
        ),
        FrameEvent::DmabufNegotiated { fourcc, width, height } => {
            let s1 = SessionV { negotiated: Some((fourcc, width, height)), ..s };
            match s.buffer {
                BufferState::Ready(handle) => (
                    SessionV { phase: CapturePhase::AwaitingCopy, ..s1 },
                    Ok(CaptureStep::CopyFrame { handle }),
                ),
                BufferState::Uninitialized => (
                    SessionV { phase: CapturePhase::AwaitingBuffer, ..s1 },
                    Ok(CaptureStep::CreateBuffer { fourcc, width, height }),
                ),
            }
        },
    }
}

/// Consuming the buffer-creation reply: on success the handle is kept for
/// this and later rounds and the copy follows; on failure the buffer
/// allocated this round is discarded and the session stays failed.
pub open spec fn spec_buffer_event(s: SessionV, ev: BufferEvent) -> (
    SessionV,
    Result<CaptureStep, CaptureError>,
) {
    match ev {
        BufferEvent::Created { handle } => (
            SessionV { buffer: BufferState::Ready(handle), phase: CapturePhase::AwaitingCopy, ..s },
            Ok(CaptureStep::CopyFrame { handle }),
        ),
        BufferEvent::Failed => (
            SessionV { phase: CapturePhase::Idle, ..s },
            Err(CaptureError::BufferCreationFailed),
        ),
    }
}

/// Consuming the copy reply: only here, on full success, the failure flag
/// clears; a failure leaves it set.
pub open spec fn spec_copy_event(s: SessionV, ev: CopyEvent) -> (
    SessionV,
    Result<(), CaptureError>,
) {
    match ev {
        CopyEvent::Ready => (SessionV { failed: false, phase: CapturePhase::Idle, ..s }, Ok(())),
        CopyEvent::Failed => (
            SessionV { failed: true, phase: CapturePhase::Idle, ..s },
            Err(CaptureError::CopyFailed),
        ),
    }
}

/// One capture session: a screen region on one output whose pixels are
/// copied into a GPU-importable buffer, round by round. The region uses
/// compositor-scaled coordinates.
pub struct CaptureSession {
    output: u64,
    x: i32,
    y: i32,
    width: i32,
    height: i32,
    negotiated: Option<(u32, u32, u32)>,
    buffer: BufferState,
    frame: bool,
    failed: bool,
    phase: CapturePhase,
}

impl View for CaptureSession {
    type V = SessionV;

    closed spec fn view(&self) -> SessionV {
        SessionV {
            output: self.output,
            x: self.x,
            y: self.y,
            width: self.width,
            height: self.height,
            negotiated: self.negotiated,
            buffer: self.buffer,
            frame: self.frame,
            failed: self.failed,
            phase: self.phase,
        }
    }
}

impl CaptureSession {
    /// A fresh session for a region of the output under the given driver
    /// handle. No buffer exists yet and no round is under way.
    pub fn new(output: u64, x: i32, y: i32, width: i32, height: i32) -> (s: CaptureSession)
        ensures
            s@ == (SessionV {
                output,
                x,
                y,
                width,
                height,
                negotiated: None,
                buffer: BufferState::Uninitialized,
                frame: false,
                failed: false,
                phase: CapturePhase::Idle,
            }),
    {
        CaptureSession {
            output,
            x,
            y,
            width,
            height,
            negotiated: None,
            buffer: BufferState::Uninitialized,
            frame: false,
            failed: false,
            phase: CapturePhase::Idle,
        }
    }

    /// Whether the session is marked failed and must be replaced.
    pub fn failed(&self) -> (r: bool)
        ensures
            r == self@.failed,
    {
        self.failed
    }

    /// The session's client buffer state.
    pub fn buffer(&self) -> (r: BufferState)
        ensures
            r == self@.buffer,
    {
        self.buffer
    }

    /// The negotiated buffer parameters, once learned.
    pub fn negotiated(&self) -> (r: Option<(u32, u32, u32)>)
        ensures
            r == self@.negotiated,
    {
        self.negotiated
    }

    /// Starts a capture round; see [`spec_begin`].
    pub fn begin(&mut self) -> (r: Result<CaptureStep, CaptureError>)
        ensures
            final(self)@ == spec_begin(old(self)@).0,
            r == spec_begin(old(self)@).1,
    {
        if self.failed {
            Err(CaptureError::SessionFailed)
        } else {
            let destroy_previous = self.frame;
            self.failed = true;
            self.frame = true;
            self.phase = CapturePhase::AwaitingFrame;
            Ok(
                CaptureStep::RequestFrame {
                    destroy_previous,
                    output: self.output,
                    x: self.x,
                    y: self.y,
                    width: self.width,
                    height: self.height,
                },
            )
        }
    }

    /// Consumes the frame's terminal reply; see [`spec_frame_event`].
    pub fn frame_event(&mut self, ev: FrameEvent) -> (r: Result<CaptureStep, CaptureError>)
        requires
            old(self)@.phase is AwaitingFrame,
        ensures
            final(self)@ == spec_frame_event(old(self)@, ev).0,
            r == spec_frame_event(old(self)@, ev).1,
    {
        match ev {
            FrameEvent::Failed => {
                self.phase = CapturePhase::Idle;
                Err(CaptureError::CaptureRequestFailed)
            },
            FrameEvent::DmabufNegotiated { fourcc, width, height } => {
                self.negotiated = Some((fourcc, width, height));
                match self.buffer {
                    BufferState::Ready(handle) => {
                        self.phase = CapturePhase::AwaitingCopy;
                        Ok(CaptureStep::CopyFrame { handle })
                    },
                    BufferState::Uninitialized => {
                        self.phase = CapturePhase::AwaitingBuffer;
                        Ok(CaptureStep::CreateBuffer { fourcc, width, height })
                    },
                }
            },
        }
    }

    /// Consumes the buffer-creation reply; see [`spec_buffer_event`].
    pub fn buffer_event(&mut self, ev: BufferEvent) -> (r: Result<CaptureStep, CaptureError>)
        requires
            old(self)@.phase is AwaitingBuffer,
        ensures
            final(self)@ == spec_buffer_event(old(self)@, ev).0,
            r == spec_buffer_event(old(self)@, ev).1,
    {
        match ev {
            BufferEvent::Created { handle } => {
                self.buffer = BufferState::Ready(handle);
                self.phase = CapturePhase::AwaitingCopy;
                Ok(CaptureStep::CopyFrame { handle })
            },
            BufferEvent::Failed => {
                self.phase = CapturePhase::Idle;
                Err(CaptureError::BufferCreationFailed)
            },
        }
    }

    /// Consumes the copy reply; see [`spec_copy_event`].
    pub fn copy_event(&mut self, ev: CopyEvent) -> (r: Result<(), CaptureError>)
        requires
            old(self)@.phase is AwaitingCopy,
        ensures
            final(self)@ == spec_copy_event(old(self)@, ev).0,
            r == spec_copy_event(old(self)@, ev).1,
    {
        match ev {
            CopyEvent::Ready => {
                self.failed = false;
                self.phase = CapturePhase::Idle;
                Ok(())
            },
            CopyEvent::Failed => {
                self.failed = true;
                self.phase = CapturePhase::Idle;
                Err(CaptureError::CopyFailed)
            },
        }
    }
}

/// `needle` occurs in `hay` starting at position `i`.
pub open spec fn subrange_at(hay: Seq<u8>, needle: Seq<u8>, i: int) -> bool {
    &&& 0 <= i
    &&& i + needle.len() <= hay.len()
    &&& hay.subrange(i, i + needle.len()) == needle
}

/// `needle` occurs somewhere in `hay`.
pub open spec fn contains_bytes(hay: Seq<u8>, needle: Seq<u8>) -> bool {
    exists|i: int| subrange_at(hay, needle, i)
}

/// Whether `needle` occurs in `hay` as a contiguous byte run.
fn bytes_contains(hay: &[u8], needle: &[u8]) -> (r: bool)
    ensures
        r == contains_bytes(hay@, needle@),
{
    let n = needle.len();
    let h = hay.len();
    if n > h {
        proof {
            assert forall|i: int| !subrange_at(hay@, needle@, i) by {}
        }
        return false;
    }
    let mut i: usize = 0;
    while i <= h - n
        invariant
            n == needle@.len(),
            h == hay@.len(),
            n <= h,
            i <= h - n + 1,
            forall|p: int| 0 <= p < i ==> !subrange_at(hay@, needle@, p),
        decreases h - n + 1 - i,
    {
        let mut j: usize = 0;
        while j < n && hay[i + j] == needle[j]
            invariant
                n == needle@.len(),
                h == hay@.len(),
                n <= h,
                i <= h - n,
                j <= n,
                forall|t: int| 0 <= t < j ==> hay@[i + t] == needle@[t],
            decreases n - j,
        {
            j = j + 1;
        }
        if j == n {
            proof {
                assert(hay@.subrange(i as int, i + n) =~= needle@);
                assert(subrange_at(hay@, needle@, i as int));
            }
            return true;
        }
        proof {
            assert(hay@[i + j] != needle@[j as int]);
            assert(!subrange_at(hay@, needle@, i as int)) by {
                if subrange_at(hay@, needle@, i as int) {
                    assert(hay@.subrange(i as int, i + n)[j as int] == hay@[i + j]);
                }
            }
        }
        i = i + 1;
    }
    proof {
        assert forall|p: int| !subrange_at(hay@, needle@, p) by {
            if 0 <= p <= h - n {
                assert(!subrange_at(hay@, needle@, p));
            }
        }
    }
    false
}

/// The output's announced name, an unset name counting as empty.
pub open spec fn output_name_chars(o: OutputInfo) -> Seq<char> {
    match o.name {
        Some(n) => n@,
        None => Seq::<char>::empty(),
    }
}

/// The output's announced description, an unset description counting as
/// empty.
pub open spec fn output_desc_chars(o: OutputInfo) -> Seq<char> {
    match o.description {
        Some(d) => d@,
        None => Seq::<char>::empty(),
    }
}

/// Name policy: the announced name equals the configured target exactly.
pub open spec fn name_matches(o: OutputInfo, target: Seq<char>) -> bool {
    output_name_chars(o) == target
}

/// Description policy: the configured target contains the announced
/// description as a byte substring.
pub open spec fn desc_matches(o: OutputInfo, target: Seq<char>) -> bool {
    contains_bytes(
        vstd::utf8::encode_utf8(target),
        vstd::utf8::encode_utf8(output_desc_chars(o)),
    )
}

/// Position of the first output whose name matches `target`.
pub open spec fn first_name_match(outputs: Seq<OutputInfo>, target: Seq<char>) -> Option<int>
    decreases outputs.len(),
{
    if outputs.len() == 0 {
        None
    } else if name_matches(outputs[0], target) {
        Some(0)
    } else {
        match first_name_match(outputs.drop_first(), target) {
            None => None,
            Some(i) => Some(i + 1),
        }
    }
}

/// Position of the first output whose description matches `target`.
pub open spec fn first_desc_match(outputs: Seq<OutputInfo>, target: Seq<char>) -> Option<int>
    decreases outputs.len(),
{
    if outputs.len() == 0 {
        None
    } else if desc_matches(outputs[0], target) {
        Some(0)
    } else {
        match first_desc_match(outputs.drop_first(), target) {
            None => None,
            Some(i) => Some(i + 1),
        }
    }
}

/// Output resolution policy: the first output matching by exact name wins;
/// only when none does, the first matching by description; no match at all
/// is a configuration error the caller must treat as fatal.
pub open spec fn spec_find_output(outputs: Seq<OutputInfo>, target: Seq<char>) -> Option<int> {
    match first_name_match(outputs, target) {
        Some(i) => Some(i),
        None => first_desc_match(outputs, target),
    }
}

proof fn lemma_first_name_hit(outputs: Seq<OutputInfo>, target: Seq<char>, i: int)
    requires
        0 <= i < outputs.len(),
        name_matches(outputs[i], target),
        forall|j: int| 0 <= j < i ==> !name_matches(#[trigger] outputs[j], target),
    ensures
        first_name_match(outputs, target) == Some(i),
    decreases outputs.len(),
{
    if i > 0 {
        assert forall|j: int| 0 <= j < i - 1 implies !name_matches(
            #[trigger] outputs.drop_first()[j],
            target,
        ) by {
            assert(outputs.drop_first()[j] == outputs[j + 1]);
        }
        assert(outputs.drop_first()[i - 1] == outputs[i]);
        lemma_first_name_hit(outputs.drop_first(), target, i - 1);
    }
}

proof fn lemma_first_name_none(outputs: Seq<OutputInfo>, target: Seq<char>)
    requires
        forall|j: int| 0 <= j < outputs.len() ==> !name_matches(#[trigger] outputs[j], target),
    ensures
        first_name_match(outputs, target) is None,
    decreases outputs.len(),
{
    if outputs.len() > 0 {
        assert forall|j: int| 0 <= j < outputs.drop_first().len() implies !name_matches(
            #[trigger] outputs.drop_first()[j],
            target,
        ) by {
            assert(outputs.drop_first()[j] == outputs[j + 1]);
        }
        lemma_first_name_none(outputs.drop_first(), target);
    }
}

proof fn lemma_first_desc_hit(outputs: Seq<OutputInfo>, target: Seq<char>, i: int)
    requires
        0 <= i < outputs.len(),
        desc_matches(outputs[i], target),
        forall|j: int| 0 <= j < i ==> !desc_matches(#[trigger] outputs[j], target),
    ensures
        first_desc_match(outputs, target) == Some(i),
    decreases outputs.len(),
{
    if i > 0 {
        assert forall|j: int| 0 <= j < i - 1 implies !desc_matches(
            #[trigger] outputs.drop_first()[j],
            target,
        ) by {
            assert(outputs.drop_first()[j] == outputs[j + 1]);
        }
        assert(outputs.drop_first()[i - 1] == outputs[i]);
        lemma_first_desc_hit(outputs.drop_first(), target, i - 1);
    }
}

proof fn lemma_first_desc_none(outputs: Seq<OutputInfo>, target: Seq<char>)
    requires
        forall|j: int| 0 <= j < outputs.len() ==> !desc_matches(#[trigger] outputs[j], target),
    ensures
        first_desc_match(outputs, target) is None,
    decreases outputs.len(),
{
    if outputs.len() > 0 {
        assert forall|j: int| 0 <= j < outputs.drop_first().len() implies !desc_matches(
            #[trigger] outputs.drop_first()[j],
            target,
        ) by {
            assert(outputs.drop_first()[j] == outputs[j + 1]);
        }
        lemma_first_desc_none(outputs.drop_first(), target);
    }
}

/// Resolves a configured output reference against the discovered outputs:
/// the first exact name match wins, else the first output whose description
/// occurs in the target text. `None` is a configuration error.
pub fn find_output(outputs: &Vec<OutputInfo>, target: &String) -> (r: Option<usize>)
    ensures
        match r {
            Some(i) => spec_find_output(outputs@, target@) == Some(i as int),
            None => spec_find_output(outputs@, target@) is None,
        },
{
    let mut i: usize = 0;
    while i < outputs.len()
        invariant
            i <= outputs@.len(),
            forall|j: int| 0 <= j < i ==> !name_matches(#[trigger] outputs@[j], target@),
        decreases outputs@.len() - i,
    {
        let o = &outputs[i];
        let hit = match &o.name {
            Some(n) => {
                proof {
                    assert(output_name_chars(*o) == n@);
                }
                *n == *target
            },
            None => {
                let e = target.as_str().is_empty();
                proof {
                    if e {
                        assert(Seq::<char>::empty() =~= target@);
                    }
                }
                e
            },
        };
        proof {
            assert(hit == name_matches(outputs@[i as int], target@));
        }
        if hit {
            proof {
                lemma_first_name_hit(outputs@, target@, i as int);
            }
            return Some(i);
        }
        i = i + 1;
    }
    proof {
        lemma_first_name_none(outputs@, target@);
    }
    let tb = target.as_str().as_bytes();
    let mut i: usize = 0;
    while i < outputs.len()
        invariant
            i <= outputs@.len(),
            first_name_match(outputs@, target@) is None,
            tb@ == vstd::utf8::encode_utf8(target@),
            forall|j: int| 0 <= j < i ==> !desc_matches(#[trigger] outputs@[j], target@),
        decreases outputs@.len() - i,
    {
        let hit = match &outputs[i].description {
            Some(d) => bytes_contains(tb, d.as_str().as_bytes()),
            None => {
                proof {
                    assert(vstd::utf8::encode_utf8(Seq::<char>::empty()) =~= Seq::<u8>::empty());
                    assert(tb@.subrange(0, 0) =~= Seq::<u8>::empty());
                    assert(subrange_at(tb@, Seq::<u8>::empty(), 0));
                }
                true
            },
        };
        if hit {
            proof {
                lemma_first_desc_hit(outputs@, target@, i as int);
            }
            return Some(i);
        }
        i = i + 1;
    }
    proof {
        lemma_first_desc_none(outputs@, target@);
    }
    None
}

/// Spec-level image of the capture client.
pub struct ClientV {
    pub outputs: Seq<OutputInfo>,
    pub sessions: Seq<(u64, SessionV)>,
}

/// Owns the discovered outputs and every capture session by id. The
/// compositor connection and GPU allocator stay with the driver; this side
/// holds every decision the protocol rounds take.
pub struct CaptureClient {
    /// The outputs discovered when the connection was established.
    pub outputs: Vec<OutputInfo>,
    sessions: IdMap<CaptureSession>,
}

impl View for CaptureClient {
    type V = ClientV;

    closed spec fn view(&self) -> ClientV {
        ClientV {
            outputs: self.outputs@,
            sessions: self.sessions@.map_values(|p: (u64, CaptureSession)| (p.0, p.1@)),
        }
    }
}

impl CaptureClient {
    /// Well-formed: session ids are unique.
    pub closed spec fn wf(&self) -> bool {
        self.sessions.wf()
    }

    /// A client over the outputs the driver discovered. Both the
    /// region-capture and the zero-copy buffer-import extension must be
    /// present, or nothing works: their absence is the fatal
    /// missing-capability error.
    pub fn new(outputs: Vec<OutputInfo>, has_screencopy: bool, has_dmabuf: bool) -> (r: Result<
        CaptureClient,
        CaptureError,
    >)
        ensures
            match r {
                Ok(c) => has_screencopy && has_dmabuf && c@.outputs == outputs@ && c@.sessions
                    == Seq::<(u64, SessionV)>::empty() && c.wf(),
                Err(e) => e == CaptureError::MissingCapability && !(has_screencopy && has_dmabuf),
            },
    {
        if !has_screencopy || !has_dmabuf {
            return Err(CaptureError::MissingCapability);
        }
        let c = CaptureClient { outputs, sessions: IdMap::new() };
        proof {
            assert(c@.sessions =~= Seq::<(u64, SessionV)>::empty());
        }
        Ok(c)
    }

    /// Inserts or replaces the session with this id. The driver performs
    /// the session's first round right after, as with any round.
    pub fn set_capture_session(&mut self, id: u64, session: CaptureSession)
        requires
            old(self).wf(),
        ensures
            final(self).wf(),
            final(self)@.outputs == old(self)@.outputs,
            final(self)@.sessions == match spec_find(old(self)@.sessions, id) {
                Some(i) => old(self)@.sessions.update(i, (id, session@)),
                None => old(self)@.sessions.push((id, session@)),
            },
    {
        proof {
            lemma_client_keys(*self);
            crate::idmap::lemma_spec_find_same_keys(self.sessions@, self@.sessions, id);
            lemma_spec_find(self.sessions@, id);
        }
        let ghost pre = *self;
        self.sessions.insert(id, session);
        proof {
            lemma_client_keys(pre);
            lemma_client_keys(*self);
            match spec_find(pre@.sessions, id) {
                Some(i) => {
                    assert(self@.sessions =~= pre@.sessions.update(i, (id, session@)));
                },
                None => {
                    assert(self@.sessions =~= pre@.sessions.push((id, session@)));
                },
            }
        }
    }

    /// The session with this id, if any.
    pub fn session(&self, id: u64) -> (r: Option<&CaptureSession>)
        ensures
            match r {
                Some(s) => {
                    &&& spec_find(self@.sessions, id) is Some
                    &&& s@ == self@.sessions[spec_find(self@.sessions, id)->Some_0].1
                },
                None => spec_find(self@.sessions, id) is None,
            },
    {
        proof {
            lemma_client_keys(*self);
            crate::idmap::lemma_spec_find_same_keys(self.sessions@, self@.sessions, id);
        }
        let found = self.sessions.index_of(id);
        match found {
            Some(i) => {
                proof {
                    lemma_spec_find(self.sessions@, id);
                }
                Some(self.sessions.val_at(i))
            },
            None => None,
        }
    }

    /// Mutable access to the session with this id, for the driver to run
    /// rounds on. Fails when no session has the id.
    pub fn session_mut(&mut self, id: u64) -> (r: Result<&mut CaptureSession, CaptureError>)
        requires
            old(self).wf(),
        ensures
            final(self).wf(),
            final(self)@.outputs =~= old(self)@.outputs,
            match r {
                Ok(s) => {
                    &&& spec_find(old(self)@.sessions, id) is Some
                    &&& {
                        let i = spec_find(old(self)@.sessions, id)->Some_0;
                        &&& s@ == old(self)@.sessions[i].1
                        &&& final(self)@.sessions =~= old(self)@.sessions.update(
                            i,
                            (id, final(s)@),
                        )
                    }
                },
                Err(e) => {
                    &&& e == CaptureError::SessionNotFound(id)
                    &&& spec_find(old(self)@.sessions, id) is None
                    &&& final(self)@.sessions =~= old(self)@.sessions
                },
            },
    {
        proof {
            lemma_client_keys(*self);
            crate::idmap::lemma_spec_find_same_keys(self.sessions@, self@.sessions, id);
        }
        let found = self.sessions.index_of(id);
        match found {
            Some(i) => {
                proof {
                    lemma_client_keys(*self);
                    lemma_spec_find(self.sessions@, id);
                }
                Ok(self.sessions.val_at_mut(i))
            },
            None => Err(CaptureError::SessionNotFound(id)),
        }
    }

    /// Starts a capture round on the session with this id: the by-id entry
    /// point of a round. A missing id and a failed session refuse without
    /// any protocol step.
    pub fn begin_capture(&mut self, id: u64) -> (r: Result<CaptureStep, CaptureError>)
        requires
            old(self).wf(),
        ensures
            final(self).wf(),
            final(self)@.outputs == old(self)@.outputs,
            match spec_find(old(self)@.sessions, id) {
                None => r == Err::<CaptureStep, CaptureError>(CaptureError::SessionNotFound(id))
                    && final(self)@.sessions == old(self)@.sessions,
                Some(i) => {
                    &&& r == spec_begin(old(self)@.sessions[i].1).1
                    &&& final(self)@.sessions == old(self)@.sessions.update(
                        i,
                        (id, spec_begin(old(self)@.sessions[i].1).0),
                    )
                },
            },
    {
        proof {
            lemma_client_keys(*self);
            crate::idmap::lemma_spec_find_same_keys(self.sessions@, self@.sessions, id);
        }
        let found = self.sessions.index_of(id);
        match found {
            Some(i) => {
                proof {
                    lemma_client_keys(*self);
                    lemma_spec_find(self.sessions@, id);
                }
                let ghost pre = *self;
                let r = self.sessions.val_at_mut(i).begin();
                proof {
                    lemma_client_keys(*self);
                    assert(self@.sessions =~= pre@.sessions.update(
                        i as int,
                        (id, spec_begin(pre@.sessions[i as int].1).0),
                    ));
                }
                r
            },
            None => Err(CaptureError::SessionNotFound(id)),
        }
    }
}

/// The view keeps count and keys of the session container.
proof fn lemma_client_keys(c: CaptureClient)
    ensures
        c@.sessions.len() == c.sessions@.len(),
        forall|i: int|
            0 <= i < c.sessions@.len() ==> (#[trigger] c@.sessions[i]).0 == c.sessions@[i].0
                && c@.sessions[i].1 == c.sessions@[i].1@,
{
}

/// Law: a session marked failed stays failed. Starting a round on it fails
/// immediately, without any protocol step, and changes nothing; recovery is
/// replacing the session, never retrying it in place.
pub proof fn lemma_failed_session_sticky(s: SessionV)
    requires
        s.failed,
    ensures
        spec_begin(s).0 == s,
        spec_begin(s).1 == Err::<CaptureStep, CaptureError>(CaptureError::SessionFailed),
{
}

/// Law: no step of a round clears the failure flag except a completed
/// copy. A round that stops early leaves the session failed.
pub proof fn lemma_only_copy_success_clears(s: SessionV, fe: FrameEvent, be: BufferEvent)
    requires
        s.failed,
    ensures
        spec_begin(s).0.failed,
        spec_frame_event(s, fe).0.failed,
        spec_buffer_event(s, be).0.failed,
        spec_copy_event(s, CopyEvent::Failed).0.failed,
{
}

/// Law: a session that completed a round and is captured again goes
/// straight from the frame reply to the copy, reusing its client buffer
/// handle — no reallocation — and only the frame request is redone.
pub proof fn lemma_buffer_reuse(s: SessionV, fourcc: u32, width: u32, height: u32)
    requires
        !s.failed,
        s.buffer is Ready,
    ensures
        ({
            let (s1, r1) = spec_begin(s);
            let (s2, r2) = spec_frame_event(
                s1,
                FrameEvent::DmabufNegotiated { fourcc, width, height },
            );
            &&& r1 == Ok::<CaptureStep, CaptureError>(
                CaptureStep::RequestFrame {
                    destroy_previous: s.frame,
                    output: s.output,
                    x: s.x,
                    y: s.y,
                    width: s.width,
                    height: s.height,
                },
            )
            &&& r2 == Ok::<CaptureStep, CaptureError>(
                CaptureStep::CopyFrame { handle: s.buffer->Ready_0 },
            )
            &&& s2.buffer == s.buffer
            &&& s2.negotiated == Some((fourcc, width, height))
            &&& s2.phase is AwaitingCopy
        }),
{
}

} // verus!
