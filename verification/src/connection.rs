//! Connection lifecycle and the protocol engine's entry points.
//!
//! [`SerialConnection`] tracks the single live connection: at most one port is
//! held at a time, every send operation requires one, and open/close misuse is
//! refused with a typed error.  The timed writes, reads and sleeps happen
//! outside the library; the caller checks the guards here, performs the I/O,
//! and feeds what it read back into the sessions these entry points hand out.

use vstd::prelude::*;
use vstd::string::StringSliceAdditionalSpecFns;

use crate::errors::SerialError;
use crate::status::{parsed_rpm, parsed_running, parse_status_text, DeviceStatus};
use crate::text::{decode_lossy, lossy_text, seq_views};
use crate::upload::{
    chars_prefix, chunk_bytes, chunk_count, frame_payload, framed, UploadSession,
};

verus! {

/// Command byte: start the signal output.
pub const CMD_RUN: u8 = 114;

/// Command byte: stop the signal output.
pub const CMD_STOP: u8 = 115;

/// Command byte: increase the signal parameter.
pub const CMD_INCREASE: u8 = 43;

/// Command byte: decrease the signal parameter.
pub const CMD_DECREASE: u8 = 45;

/// Command byte: persist the current settings to device storage.
pub const CMD_SAVE: u8 = 119;

/// Command byte: reset the device to its defaults.
pub const CMD_RESET: u8 = 100;

/// Command byte: query the device status.
pub const CMD_STATUS: u8 = 63;

/// The tunable protocol parameters.  They were tuned empirically for one
/// piece of hardware, so they are carried as configuration rather than
/// hard-coded; [`ProtocolConfig::new`] gives that tuning.
#[derive(Debug, Clone)]
pub struct ProtocolConfig {
    /// Serial baud rate.
    pub baud_rate: u32,
    /// Per-read timeout at the transport level, in milliseconds.
    pub read_timeout_ms: u64,
    /// Pause after a command byte before reading the reply, in milliseconds.
    pub settle_delay_ms: u64,
    /// Bytes per write chunk during an upload; the device's small receive
    /// buffer overruns without this pacing.
    pub chunk_size: usize,
    /// Pause between chunks, in milliseconds.
    pub inter_chunk_delay_ms: u64,
    /// Pause between response polls during an upload, in milliseconds.
    pub poll_interval_ms: u64,
    /// Hard wall-clock bound on waiting for the upload acknowledgment, in
    /// milliseconds.
    pub upload_deadline_ms: u64,
    /// Bound on the accumulated response buffer, in bytes.
    pub response_cap: usize,
    /// Length of the best-effort drain after an acknowledgment, in
    /// milliseconds.
    pub drain_window_ms: u64,
    /// Pause between drain reads, in milliseconds.
    pub drain_poll_ms: u64,
}

impl ProtocolConfig {
    /// The parameters an upload depends on are positive.
    pub open spec fn wf(&self) -> bool {
        self.chunk_size >= 1 && self.response_cap >= 1
    }

    /// The empirically tuned parameters for the reference hardware.
    pub fn new() -> (c: Self)
        ensures
            c.baud_rate == 115200,
            c.read_timeout_ms == 1000,
            c.settle_delay_ms == 30,
            c.chunk_size == 64,
            c.inter_chunk_delay_ms == 2,
            c.poll_interval_ms == 100,
            c.upload_deadline_ms == 15000,
            c.response_cap == 16384,
            c.drain_window_ms == 250,
            c.drain_poll_ms == 20,
            c.wf(),
    {
        ProtocolConfig {
            baud_rate: 115200,
            read_timeout_ms: 1000,
            settle_delay_ms: 30,
            chunk_size: 64,
            inter_chunk_delay_ms: 2,
            poll_interval_ms: 100,
            upload_deadline_ms: 15000,
            response_cap: 16384,
            drain_window_ms: 250,
            drain_poll_ms: 20,
        }
    }
}

impl Default for ProtocolConfig {
    /// Same tuning as [`ProtocolConfig::new`].
    fn default() -> (c: Self)
        ensures
            c.baud_rate == 115200,
            c.read_timeout_ms == 1000,
            c.settle_delay_ms == 30,
            c.chunk_size == 64,
            c.inter_chunk_delay_ms == 2,
            c.poll_interval_ms == 100,
            c.upload_deadline_ms == 15000,
            c.response_cap == 16384,
            c.drain_window_ms == 250,
            c.drain_poll_ms == 20,
            c.wf(),
    {
        ProtocolConfig::new()
    }
}

/// One result of a timed read, as the caller saw it: some bytes, a read that
/// returned nothing, a timeout, or a true transport failure.
#[derive(Debug)]
pub enum ReadEvent {
    /// The read returned these bytes.
    Data(Vec<u8>),
    /// The read returned without any bytes.
    Empty,
    /// The read timed out; during draining this means "no more data".
    TimedOut,
    /// The read failed for a real reason (device unplugged, bus error).
    Failed(String),
}

/// The reply to one command byte, being collected: the caller writes the
/// byte, waits the settle delay, then feeds each read into
/// [`CommandSession::on_read`] until it says to stop.
pub struct CommandSession {
    cmd: u8,
    response: Vec<u8>,
    finished: bool,
}

impl CommandSession {
    /// The command byte this exchange sends.
    pub closed spec fn command_byte(&self) -> u8 {
        self.cmd
    }

    /// The reply bytes collected so far.
    pub closed spec fn response_view(&self) -> Seq<u8> {
        self.response@
    }

    /// Whether the device has stopped sending.
    pub closed spec fn finished(&self) -> bool {
        self.finished
    }

    /// The command byte to write on the wire.
    pub fn command_to_send(&self) -> (r: u8)
        ensures
            r == self.command_byte(),
    {
        self.cmd
    }

    /// Absorb one read: bytes are appended and reading continues; an empty
    /// read or a timeout means the device is done; a true read failure aborts
    /// the exchange.  Returns whether to keep reading.
    pub fn on_read(&mut self, ev: ReadEvent) -> (r: Result<bool, SerialError>)
        requires
            !old(self).finished(),
        ensures
            final(self).command_byte() == old(self).command_byte(),
            ev matches ReadEvent::Data(d) ==> r == Ok::<bool, SerialError>(true)
                && final(self).response_view() == old(self).response_view() + d@
                && !final(self).finished(),
            ev matches ReadEvent::Empty ==> r == Ok::<bool, SerialError>(false)
                && final(self).response_view() == old(self).response_view()
                && final(self).finished(),
            ev matches ReadEvent::TimedOut ==> r == Ok::<bool, SerialError>(false)
                && final(self).response_view() == old(self).response_view()
                && final(self).finished(),
            ev matches ReadEvent::Failed(m) ==> (r matches Err(e) && e == SerialError::ReadFailed(m))
                && final(self).response_view() == old(self).response_view(),
    {
        match ev {
            ReadEvent::Data(d) => {
                let mut i: usize = 0;
                while i < d.len()
                    invariant
                        0 <= i <= d@.len(),
                        self.response@ == old(self).response@ + d@.subrange(0, i as int),
                        self.cmd == old(self).cmd,
                        self.finished == old(self).finished,
                    decreases d@.len() - i,
                {
                    proof {
                        let pre = old(self).response@ + d@.subrange(0, i as int);
                        assert(old(self).response@ + d@.subrange(0, i + 1 as int) =~= pre.push(
                            d@[i as int],
                        ));
                    }
                    self.response.push(d[i]);
                    i = i + 1;
                }
                proof {
                    assert(old(self).response@ + d@.subrange(0, d@.len() as int) =~= old(self).response@
                        + d@);
                }
                Ok(true)
            },
            ReadEvent::Empty => {
                self.finished = true;
                Ok(false)
            },
            ReadEvent::TimedOut => {
                self.finished = true;
                Ok(false)
            },
            ReadEvent::Failed(m) => Err(SerialError::ReadFailed(m)),
        }
    }

    /// The reply bytes collected so far, for parsing.
    pub fn response_bytes(&self) -> (r: &Vec<u8>)
        ensures
            r@ == self.response_view(),
    {
        &self.response
    }

    /// The reply as text, decoded lossily: invalid bytes never fail a command.
    pub fn into_text(self) -> (r: String)
        ensures
            r@ == lossy_text(self.response_view()),
    {
        decode_lossy(self.response.as_slice())
    }
}

/// The single serial connection's bookkeeping: which port is held, if any.
/// The platform handle itself lives with the caller, which keeps it exactly
/// in step with this record.
pub struct SerialConnection {
    port_name: Option<String>,
}

impl SerialConnection {
    /// Whether a connection is currently held.
    pub closed spec fn connected(&self) -> bool {
        self.port_name is Some
    }

    /// The name of the held port, if any.
    pub closed spec fn port(&self) -> Option<Seq<char>> {
        match self.port_name {
            Some(s) => Some(s@),
            None => None,
        }
    }

    /// What an open attempt would be answered in the current state.
    pub open spec fn open_check(&self) -> Result<(), SerialError> {
        if self.connected() {
            Err(SerialError::AlreadyConnected)
        } else {
            Ok(())
        }
    }

    /// A fresh engine holds no connection.
    pub fn new() -> (c: Self)
        ensures
            !c.connected(),
            c.port() is None,
    {
        SerialConnection { port_name: None }
    }

    /// Pure query: whether a connection is held.  Never fails.
    pub fn is_connected(&self) -> (r: bool)
        ensures
            r == self.connected(),
    {
        self.port_name.is_some()
    }

    /// Pure query: the name of the held port.  Never fails.
    pub fn current_port_name(&self) -> (r: Option<String>)
        ensures
            r is Some <==> self.connected(),
            r matches Some(s) ==> self.port() == Some(s@),
    {
        match &self.port_name {
            Some(s) => Some(s.clone()),
            None => None,
        }
    }

    /// Guard for `open`: refused with `AlreadyConnected` while a connection is
    /// held — a second connection must fail immediately rather than queue.
    /// The caller opens the platform port only after this returns `Ok` and
    /// then records the result with [`SerialConnection::complete_open`]; a
    /// platform failure surfaces as `OpenFailed` and leaves this state
    /// untouched.
    pub fn can_open(&self) -> (r: Result<(), SerialError>)
        ensures
            r == self.open_check(),
            r is Ok <==> !self.connected(),
            self.connected() ==> r == Err::<(), SerialError>(SerialError::AlreadyConnected),
    {
        if self.port_name.is_some() {
            Err(SerialError::AlreadyConnected)
        } else {
            Ok(())
        }
    }

    /// Record that the platform port `port_name` was opened.
    pub fn complete_open(&mut self, port_name: String)
        requires
            !old(self).connected(),
        ensures
            final(self).connected(),
            final(self).port() == Some(port_name@),
    {
        self.port_name = Some(port_name);
    }

    /// Release the connection: refused with `NotConnected` when none is held,
    /// otherwise the port is forgotten unconditionally — the caller drops the
    /// platform handle, with no flush or drain owed.
    pub fn disconnect(&mut self) -> (r: Result<(), SerialError>)
        ensures
            old(self).connected() ==> r == Ok::<(), SerialError>(()) && !final(self).connected()
                && final(self).port() is None,
            !old(self).connected() ==> r == Err::<(), SerialError>(SerialError::NotConnected)
                && *final(self) == *old(self),
    {
        if self.port_name.is_none() {
            return Err(SerialError::NotConnected);
        }
        self.port_name = None;
        Ok(())
    }

    /// Begin a simple command exchange: refused with `NotConnected` when no
    /// connection is held — and then nothing is written to the wire.  On
    /// success the returned session carries the byte to write and collects
    /// the reply.
    pub fn begin_command(&self, cmd: u8) -> (r: Result<CommandSession, SerialError>)
        ensures
            r is Ok <==> self.connected(),
            !self.connected() ==> r == Err::<CommandSession, SerialError>(
                SerialError::NotConnected,
            ),
            r matches Ok(s) ==> s.command_byte() == cmd && s.response_view() == Seq::<u8>::empty()
                && !s.finished(),
    {
        if self.port_name.is_none() {
            return Err(SerialError::NotConnected);
        }
        Ok(CommandSession { cmd, response: Vec::new(), finished: false })
    }

    /// Begin a chunked configuration upload: refused with `NotConnected` when
    /// no connection is held.  Otherwise the payload is framed and split into
    /// paced chunks for the caller to write in order, and the returned session
    /// tracks the response.  The preview of the payload is kept for
    /// diagnostics.
    pub fn begin_upload(&self, config: &str, p: &ProtocolConfig) -> (r: Result<
        (UploadSession, Vec<Vec<u8>>),
        SerialError,
    >)
        requires
            p.wf(),
        ensures
            r is Ok <==> self.connected(),
            !self.connected() ==> r == Err::<(UploadSession, Vec<Vec<u8>>), SerialError>(
                SerialError::NotConnected,
            ),
            r matches Ok(sc) ==> ({
                &&& seq_views(sc.1@).flatten() == framed(config.spec_bytes())
                &&& sc.1@.len() == chunk_count(
                    framed(config.spec_bytes()).len() as int,
                    p.chunk_size as int,
                )
                &&& (forall|i: int| 0 <= i < sc.1@.len() ==> #[trigger] sc.1@[i]@.len()
                    <= p.chunk_size)
                &&& (forall|i: int| 0 <= i < sc.1@.len() - 1 ==> #[trigger] sc.1@[i]@.len()
                    == p.chunk_size)
                &&& sc.0.bytes_total_spec() == framed(config.spec_bytes()).len()
                &&& sc.0.chunk_total_spec() == sc.1@.len()
                &&& sc.0.preview_spec() == chars_prefix(config@, 500)
                &&& sc.0.cap_spec() == p.response_cap
                &&& sc.0.response_view() == Seq::<u8>::empty()
                &&& !sc.0.acked()
                &&& sc.0.nak_view() is None
            }),
    {
        if self.port_name.is_none() {
            return Err(SerialError::NotConnected);
        }
        let len = config.unicode_len();
        let upto = if len > 500 {
            500
        } else {
            len
        };
        let preview = config.substring_char(0, upto).to_owned();
        proof {
            assert(preview@ =~= chars_prefix(config@, 500));
        }
        let message = frame_payload(config.as_bytes());
        let chunks = chunk_bytes(message.as_slice(), p.chunk_size);
        let session = UploadSession::start(message.len(), chunks.len(), preview, p.response_cap);
        Ok((session, chunks))
    }

    /// The status snapshot when no connection is held: not an error, just a
    /// disconnected record with every other field at its default.
    pub fn offline_status() -> (st: DeviceStatus)
        ensures
            !st.connected,
            st.port_name is None,
            !st.running,
            st.rpm == 0,
            st.raw_response@ == Seq::<char>::empty(),
    {
        DeviceStatus::default()
    }

    /// Build the status snapshot from the reply to the status query: the
    /// parsed running flag and rotation speed, with the raw text preserved
    /// verbatim.  Parsing never fails; unrecognized text leaves the defaults.
    pub fn status_from_response(&self, resp: &[u8]) -> (st: DeviceStatus)
        requires
            self.connected(),
        ensures
            st.connected,
            st.port_name matches Some(nm) && Some(nm@) == self.port(),
            st.running == parsed_running(resp@),
            st.rpm == parsed_rpm(resp@),
            st.raw_response@ == lossy_text(resp@),
    {
        let (running, rpm) = parse_status_text(resp);
        let port_name = match &self.port_name {
            Some(s) => Some(s.clone()),
            None => None,
        };
        DeviceStatus {
            connected: true,
            port_name,
            running,
            rpm,
            raw_response: decode_lossy(resp),
        }
    }
}

/// Once a connection is held, another open attempt is answered with
/// `AlreadyConnected`, and the failed attempt changes nothing: the check
/// itself never mutates the state it examined.
pub proof fn lemma_open_is_exclusive(c: SerialConnection)
    requires
        c.connected(),
    ensures
        c.open_check() == Err::<(), SerialError>(SerialError::AlreadyConnected),
{
}

} // verus!
