//! What the connection loop does with each message once the state machine
//! has judged it, and the ordered queue of frames waiting to be written to
//! one peer.
use vstd::prelude::*;
use std::collections::VecDeque;
use bytes::Bytes;
use crate::buffers::{bytes_contents, bytes_slice};
use crate::codec::{FrameV, WlRawMsg, MAX_FRAME_LEN};
use crate::proto::{display_error_args, display_error_event, display_error_frame};
use crate::args::encode_args;
use crate::state::{request_fatal, WlMitmState, WlMitmVerdict};
use crate::args::{args_fit, parse_args, ArgV, WlArgType, lemma_args_roundtrip};
use crate::proto::parse_spec;
use crate::protocol::WlMsgType;
use crate::proto::WaylandProtocolParsingOutcome;
use crate::wire::Endian;

verus! {

/// The text of the protocol error sent for a rejected request.
pub const REJECTION_MESSAGE: &'static str = "Rejected by wl-mitm";

/// The verdict that takes effect: in a dry run every verdict but
/// `Terminate` lets the message through.
pub open spec fn effective_verdict_spec(v: WlMitmVerdict, dry_run: bool) -> WlMitmVerdict {
    if dry_run && v != WlMitmVerdict::Terminate {
        WlMitmVerdict::Allowed
    } else {
        v
    }
}

/// The verdict that takes effect, a dry run taken into account.
pub fn effective_verdict(v: WlMitmVerdict, dry_run: bool) -> (r: WlMitmVerdict)
    ensures
        r == effective_verdict_spec(v, dry_run),
{
    if dry_run && !v.is_allowed() {
        match v {
            WlMitmVerdict::Terminate => WlMitmVerdict::Terminate,
            _ => WlMitmVerdict::Allowed,
        }
    } else {
        v
    }
}

/// Where a judged message goes.
pub enum WlMitmRoute<F> {
    /// Write this frame to the server.
    ToServer(WlRawMsg<F>),
    /// Write this frame to the client.
    ToClient(WlRawMsg<F>),
    /// Write nothing.
    Drop,
    /// End the connection.
    Abort,
}

/// Where a message goes, as the contracts see it.
pub enum RouteV {
    ToServer(FrameV),
    ToClient(FrameV),
    Drop,
    Abort,
}

impl<F> WlMitmRoute<F> {
    pub open spec fn view(&self) -> RouteV {
        match self {
            WlMitmRoute::ToServer(m) => RouteV::ToServer(m.frame()),
            WlMitmRoute::ToClient(m) => RouteV::ToClient(m.frame()),
            WlMitmRoute::Drop => RouteV::Drop,
            WlMitmRoute::Abort => RouteV::Abort,
        }
    }
}

/// Where a request `f` with verdict `v` goes.
pub open spec fn request_route(e: Endian, f: FrameV, v: WlMitmVerdict, dry_run: bool) -> RouteV {
    match effective_verdict_spec(v, dry_run) {
        WlMitmVerdict::Allowed => RouteV::ToServer(f),
        WlMitmVerdict::Rejected(code) => RouteV::ToClient(
            display_error_frame(f.obj_id, code, REJECTION_MESSAGE@, e),
        ),
        WlMitmVerdict::Filtered => RouteV::Drop,
        WlMitmVerdict::Terminate => RouteV::Abort,
    }
}

/// Where an event `f` with verdict `v` goes.
pub open spec fn event_route(f: FrameV, v: WlMitmVerdict, dry_run: bool) -> RouteV {
    match effective_verdict_spec(v, dry_run) {
        WlMitmVerdict::Allowed => RouteV::ToClient(f),
        WlMitmVerdict::Terminate => RouteV::Abort,
        _ => RouteV::Drop,
    }
}

/// Sends a judged request on: to the server when allowed, a protocol error
/// to the client when rejected, nowhere when filtered.
pub fn route_request<F>(e: Endian, msg: WlRawMsg<F>, verdict: WlMitmVerdict, dry_run: bool) -> (r:
    WlMitmRoute<F>)
    requires
        msg.wf(e),
    ensures
        r.view() == request_route(e, msg.frame(), verdict, dry_run),
        r matches WlMitmRoute::ToServer(m) ==> m.wf(e) && m.fds == msg.fds,
        r matches WlMitmRoute::ToClient(m) ==> m.wf(e) && m.fds@.len() == 0,
{
    match effective_verdict(verdict, dry_run) {
        WlMitmVerdict::Allowed => WlMitmRoute::ToServer(msg),
        WlMitmVerdict::Rejected(code) => {
            match display_error_event(e, msg.obj_id, code, REJECTION_MESSAGE) {
                Some(m) => WlMitmRoute::ToClient(m),
                None => {
                    proof {
                        lemma_rejection_fits(e, msg.obj_id, code);
                    }
                    WlMitmRoute::Abort
                },
            }
        },
        WlMitmVerdict::Filtered => WlMitmRoute::Drop,
        WlMitmVerdict::Terminate => WlMitmRoute::Abort,
    }
}

/// The rejection event always fits in a frame.
proof fn lemma_rejection_fits(e: Endian, object: u32, code: u32)
    ensures
        encode_args(e, display_error_args(object, code, REJECTION_MESSAGE@)).len() + 8
            <= MAX_FRAME_LEN,
{
    let vs = display_error_args(object, code, REJECTION_MESSAGE@);
    reveal_with_fuel(encode_args, 4);
    assert(vs.drop_first().drop_first().drop_first() =~= Seq::<crate::args::ArgV>::empty());
    reveal_strlit("Rejected by wl-mitm");
    assert(REJECTION_MESSAGE@.len() == 19);
    vstd::utf8::is_ascii_chars_encode_utf8(REJECTION_MESSAGE@);
}

/// Sends a judged event on: to the client when allowed, nowhere otherwise.
pub fn route_event<F>(msg: WlRawMsg<F>, verdict: WlMitmVerdict, dry_run: bool) -> (r: WlMitmRoute<F>)
    ensures
        r.view() == event_route(msg.frame(), verdict, dry_run),
        r matches WlMitmRoute::ToClient(m) ==> m == msg,
{
    match effective_verdict(verdict, dry_run) {
        WlMitmVerdict::Allowed => WlMitmRoute::ToClient(msg),
        WlMitmVerdict::Terminate => WlMitmRoute::Abort,
        _ => WlMitmRoute::Drop,
    }
}

/// Frames waiting to be written to one peer, in order, and the progress of
/// the frame being written.
pub struct WlWriteQueue<F> {
    write_queue: VecDeque<WlRawMsg<F>>,
    cur_write_buf: Option<Bytes>,
    cur_write_buf_pos: usize,
    cur_write_fds: Option<Vec<F>>,
}

impl<F> WlWriteQueue<F> {
    /// The bytes of the frames not yet started, in order.
    pub closed spec fn queued(&self) -> Seq<Seq<u8>> {
        self.write_queue@.map_values(|m: WlRawMsg<F>| m.bytes())
    }

    /// The bytes of the frame in progress not yet written.
    pub closed spec fn unsent(&self) -> Seq<u8> {
        match self.cur_write_buf {
            Some(b) => bytes_contents(b).subrange(
                self.cur_write_buf_pos as int,
                bytes_contents(b).len() as int,
            ),
            None => Seq::empty(),
        }
    }

    /// Whether a frame is in progress.
    pub closed spec fn in_progress(&self) -> bool {
        self.cur_write_buf is Some
    }

    /// The descriptors of the frames not yet started, frame by frame.
    pub closed spec fn queued_fds(&self) -> Seq<Seq<F>> {
        self.write_queue@.map_values(|m: WlRawMsg<F>| m.fds@)
    }

    /// The descriptors of the frame in progress not yet handed out.
    pub closed spec fn pending_fds(&self) -> Seq<F> {
        match self.cur_write_fds {
            Some(v) => v@,
            None => Seq::empty(),
        }
    }

    /// Whether the descriptors of the frame in progress are still to be sent.
    pub closed spec fn fds_pending(&self) -> bool {
        self.cur_write_fds is Some
    }

    /// A frame in progress has bytes left; queued frames are not empty.
    pub closed spec fn wf(&self) -> bool {
        &&& match self.cur_write_buf {
            Some(b) => self.cur_write_buf_pos < bytes_contents(b).len(),
            None => self.cur_write_fds is None,
        }
        &&& forall|i: int| 0 <= i < self.write_queue@.len() ==> (#[trigger] self.write_queue@[i]).bytes().len() > 0
    }

    /// An empty queue.
    pub fn new() -> (r: Self)
        ensures
            r.wf(),
            r.queued() == Seq::<Seq<u8>>::empty(),
            r.queued_fds() == Seq::<Seq<F>>::empty(),
            !r.in_progress(),
    {
        let r = WlWriteQueue {
            write_queue: VecDeque::new(),
            cur_write_buf: None,
            cur_write_buf_pos: 0,
            cur_write_fds: None,
        };
        assert(r.queued() =~= Seq::<Seq<u8>>::empty());
        assert(r.queued_fds() =~= Seq::<Seq<F>>::empty());
        r
    }

    /// Whether there is anything to write.
    pub fn can_write(&self) -> (r: bool)
        ensures
            r == (self.in_progress() || self.queued().len() > 0),
    {
        self.cur_write_buf.is_some() || self.write_queue.len() > 0
    }

    /// Puts `msg` at the back of the queue; nothing is written yet.
    pub fn queue_write(&mut self, msg: WlRawMsg<F>)
        requires
            old(self).wf(),
            msg.bytes().len() > 0,
        ensures
            final(self).wf(),
            final(self).queued() == old(self).queued().push(msg.bytes()),
            final(self).queued_fds() == old(self).queued_fds().push(msg.fds@),
            final(self).pending_fds() == old(self).pending_fds(),
            final(self).unsent() == old(self).unsent(),
            final(self).in_progress() == old(self).in_progress(),
            final(self).fds_pending() == old(self).fds_pending(),
    {
        let ghost q0 = self.write_queue@;
        self.write_queue.push_back(msg);
        assert(self.queued() =~= old(self).queued().push(msg.bytes()));
        assert(self.queued_fds() =~= old(self).queued_fds().push(msg.fds@));
        assert forall|i: int| 0 <= i < self.write_queue@.len() implies (#[trigger] self.write_queue@[i]).bytes().len() > 0 by {
            if i < q0.len() {
                assert(self.write_queue@[i] == q0[i]);
            }
        }
    }

    /// When no frame is in progress, starts the first queued one: frames
    /// are written whole, one after the other, in the order they were queued.
    pub fn start_next(&mut self)
        requires
            old(self).wf(),
        ensures
            final(self).wf(),
            if old(self).in_progress() || old(self).queued().len() == 0 {
                &&& final(self).queued() == old(self).queued()
                &&& final(self).queued_fds() == old(self).queued_fds()
                &&& final(self).pending_fds() == old(self).pending_fds()
                &&& final(self).unsent() == old(self).unsent()
                &&& final(self).in_progress() == old(self).in_progress()
                &&& final(self).fds_pending() == old(self).fds_pending()
            } else {
                &&& final(self).queued() == old(self).queued().drop_first()
                &&& final(self).queued_fds() == old(self).queued_fds().drop_first()
                &&& final(self).in_progress()
                &&& final(self).fds_pending()
                &&& final(self).pending_fds() == old(self).queued_fds()[0]
                &&& final(self).unsent() == old(self).queued()[0]
            },
    {
        if self.cur_write_buf.is_none() {
            let ghost q0 = self.write_queue@;
            if let Some(msg) = self.write_queue.pop_front() {
                assert(msg.bytes().len() > 0);
                let (buf, fds) = msg.into_parts();
                self.cur_write_buf = Some(buf);
                self.cur_write_buf_pos = 0;
                self.cur_write_fds = Some(fds);
                proof {
                    assert(self.queued() =~= old(self).queued().drop_first());
                    assert(self.queued_fds() =~= old(self).queued_fds().drop_first());
                    assert(self.unsent() =~= old(self).queued()[0]);
                    assert forall|i: int| 0 <= i < self.write_queue@.len() implies (#[trigger] self.write_queue@[i]).bytes().len() > 0 by {
                        assert(self.write_queue@[i] == q0[i + 1]);
                    }
                }
            }
        }
    }

    /// The bytes of the frame in progress not yet written.
    pub fn unsent_bytes(&self) -> (r: &[u8])
        requires
            self.wf(),
        ensures
            r@ == self.unsent(),
    {
        match &self.cur_write_buf {
            Some(b) => {
                let s = bytes_slice(b);
                vstd::slice::slice_subrange(s, self.cur_write_buf_pos, s.len())
            },
            None => &[],
        }
    }

    /// The descriptors of the frame in progress, handed out once: they go
    /// with the first write of the frame.
    pub fn take_fds(&mut self) -> (r: Vec<F>)
        requires
            old(self).wf(),
        ensures
            final(self).wf(),
            !final(self).fds_pending(),
            r@ == old(self).pending_fds(),
            final(self).pending_fds() == Seq::<F>::empty(),
            final(self).queued() == old(self).queued(),
            final(self).queued_fds() == old(self).queued_fds(),
            final(self).unsent() == old(self).unsent(),
            final(self).in_progress() == old(self).in_progress(),
            !old(self).fds_pending() ==> r@.len() == 0,
    {
        match self.cur_write_fds.take() {
            Some(fds) => fds,
            None => Vec::new(),
        }
    }

    /// Gives back descriptors that a failed write did not send, so that the
    /// next write of the frame in progress carries them.
    pub fn restore_fds(&mut self, fds: Vec<F>)
        requires
            old(self).wf(),
        ensures
            final(self).wf(),
            final(self).queued() == old(self).queued(),
            final(self).queued_fds() == old(self).queued_fds(),
            final(self).unsent() == old(self).unsent(),
            final(self).in_progress() == old(self).in_progress(),
            (old(self).in_progress() && !old(self).fds_pending()) ==> final(self).pending_fds() == fds@
                && final(self).fds_pending(),
            !(old(self).in_progress() && !old(self).fds_pending()) ==> final(self).pending_fds()
                == old(self).pending_fds(),
    {
        if self.cur_write_buf.is_some() && self.cur_write_fds.is_none() {
            self.cur_write_fds = Some(fds);
        }
    }

    /// Records that `written` bytes of the frame in progress went out; the
    /// frame is done once all of its bytes did.
    pub fn advance(&mut self, written: usize)
        requires
            old(self).wf(),
            written <= old(self).unsent().len(),
        ensures
            final(self).wf(),
            final(self).queued() == old(self).queued(),
            final(self).queued_fds() == old(self).queued_fds(),
            if written < old(self).unsent().len() {
                &&& final(self).in_progress() == old(self).in_progress()
                &&& final(self).pending_fds() == old(self).pending_fds()
                &&& final(self).unsent() == old(self).unsent().subrange(written as int, old(self).unsent().len() as int)
                &&& final(self).fds_pending() == old(self).fds_pending()
            } else {
                &&& !final(self).in_progress()
                &&& final(self).unsent() == Seq::<u8>::empty()
            },
    {
        let len = match &self.cur_write_buf {
            Some(b) => bytes_slice(b).len(),
            None => 0,
        };
        if self.cur_write_buf.is_some() && self.cur_write_buf_pos + written < len {
            self.cur_write_buf_pos = self.cur_write_buf_pos + written;
            proof {
                let b = bytes_contents(self.cur_write_buf->0);
                assert(self.unsent() =~= old(self).unsent().subrange(written as int, old(self).unsent().len() as int));
            }
        } else {
            self.cur_write_buf = None;
            self.cur_write_buf_pos = 0;
            self.cur_write_fds = None;
        }
    }
}

/// A request the state machine rejects with code `c` reaches the client as a
/// `wl_display.error` event on the display object about the request's
/// object, with code `c`; its payload reads back as exactly those arguments.
/// Queued behind the frames already waiting, it comes before every frame
/// queued after it.
pub proof fn lemma_rejection_reaches_client(
    e: Endian,
    f: FrameV,
    c: u32,
    waiting: Seq<Seq<u8>>,
    later: Seq<Seq<u8>>,
)
    ensures
        request_route(e, f, WlMitmVerdict::Rejected(c), false) == RouteV::ToClient(
            display_error_frame(f.obj_id, c, REJECTION_MESSAGE@, e),
        ),
        display_error_frame(f.obj_id, c, REJECTION_MESSAGE@, e).obj_id == crate::objects::WL_DISPLAY_OBJECT_ID,
        display_error_frame(f.obj_id, c, REJECTION_MESSAGE@, e).opcode == crate::proto::WL_DISPLAY_ERROR_OPCODE,
        parse_args(
            e,
            seq![WlArgType::Object, WlArgType::Uint, WlArgType::String],
            display_error_frame(f.obj_id, c, REJECTION_MESSAGE@, e).payload,
            0,
            0,
        ) == Some((seq![ArgV::Object(f.obj_id), ArgV::Uint(c), ArgV::Str(REJECTION_MESSAGE@)], 0int)),
        ({
            let err = crate::codec::frame_bytes(e, display_error_frame(f.obj_id, c, REJECTION_MESSAGE@, e));
            let stream = waiting.push(err) + later;
            &&& stream[waiting.len() as int] == err
            &&& forall|i: int| 0 <= i < later.len() ==> stream[waiting.len() + 1 + i] == later[i]
        }),
{
    let ts = seq![WlArgType::Object, WlArgType::Uint, WlArgType::String];
    let vs = display_error_args(f.obj_id, c, REJECTION_MESSAGE@);
    reveal_strlit("Rejected by wl-mitm");
    vstd::utf8::is_ascii_chars_encode_utf8(REJECTION_MESSAGE@);
    reveal_with_fuel(args_fit, 4);
    reveal_with_fuel(crate::args::fd_count, 4);
    assert(ts.drop_first().drop_first().drop_first() =~= Seq::<WlArgType>::empty());
    assert(vs.drop_first().drop_first().drop_first() =~= Seq::<ArgV>::empty());
    assert(args_fit(ts, vs, 0));
    lemma_args_roundtrip(e, ts, vs, 0, 0, Seq::empty());
    assert(encode_args(e, vs) + Seq::<u8>::empty() =~= encode_args(e, vs));
    let err = crate::codec::frame_bytes(e, display_error_frame(f.obj_id, c, REJECTION_MESSAGE@, e));
    let stream = waiting.push(err) + later;
    assert forall|i: int| 0 <= i < later.len() implies stream[waiting.len() + 1 + i] == later[i] by {}
}

/// A request on a half-destroyed object ends the connection: whatever it
/// holds, the state machine's verdict is `Terminate` (see
/// [`WlMitmState::on_c2s_request`]), and a terminating verdict writes
/// nothing to either peer, dry run or not.
pub proof fn lemma_half_destroyed_terminates<F>(st: WlMitmState, raw: WlRawMsg<F>, dry_run: bool)
    requires
        st.objs().half().contains_key(raw.obj_id),
    ensures
        parse_spec(st.endian(), &st.proto(), &st.objs(), &raw, WlMsgType::Request) matches WaylandProtocolParsingOutcome::Parsed(p)
            ==> request_fatal(st.proto(), st.objs(), p, raw.obj_id),
        request_route(st.endian(), raw.frame(), WlMitmVerdict::Terminate, dry_run) == RouteV::Abort,
{
}

/// A dry run changes nothing for a verdict that lets the message through or
/// ends the connection: the same frames go to the same peer.
pub proof fn lemma_dry_run_neutral(e: Endian, f: FrameV, v: WlMitmVerdict)
    requires
        v == WlMitmVerdict::Allowed || v == WlMitmVerdict::Terminate,
    ensures
        request_route(e, f, v, true) == request_route(e, f, v, false),
        event_route(f, v, true) == event_route(f, v, false),
{
}

/// In a dry run a blocked request goes to the server as it is, where it
/// would otherwise be dropped or answered with an error event.
pub proof fn lemma_dry_run_forwards(e: Endian, f: FrameV, v: WlMitmVerdict)
    requires
        v != WlMitmVerdict::Terminate,
    ensures
        request_route(e, f, v, true) == RouteV::ToServer(f),
        event_route(f, v, true) == RouteV::ToClient(f),
{
}

} // verus!
