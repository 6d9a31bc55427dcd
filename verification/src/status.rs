//! Device-status parsing.
//!
//! The status query returns free-form lines.  A line containing `RPM` carries
//! the rotation speed in its first colon-delimited field; lines containing
//! `RUN`/`Running` or `STOP`/`Stopped` set or clear the running flag.  Later
//! lines override earlier ones — last line wins.  Parsing never fails:
//! malformed text simply leaves fields at their defaults.

use vstd::prelude::*;

use crate::text::{
    contains_sub, find_sub, lines_of, parse_u16, parse_u16_spec, seq_views, split_lines,
    trim_bytes, trimmed,
};

verus! {

/// A point-in-time snapshot of the device, rebuilt on every status query.
#[derive(Debug, Clone)]
pub struct DeviceStatus {
    /// Whether a connection is currently held.
    pub connected: bool,
    /// The port the connection was opened on, if any.
    pub port_name: Option<String>,
    /// Whether the device reported itself running.
    pub running: bool,
    /// The last reported rotation speed.
    pub rpm: u16,
    /// The raw text last read from the device, kept verbatim.
    pub raw_response: String,
}

impl Default for DeviceStatus {
    /// The disconnected snapshot: every field at its default.
    fn default() -> (r: Self)
        ensures
            !r.connected,
            r.port_name is None,
            !r.running,
            r.rpm == 0,
            r.raw_response@ == Seq::<char>::empty(),
    {
        DeviceStatus {
            connected: false,
            port_name: None,
            running: false,
            rpm: 0,
            raw_response: String::new(),
        }
    }
}

/// The bytes of `RPM`.
pub open spec fn rpm_token() -> Seq<u8> {
    seq![82u8, 80u8, 77u8]
}

/// The bytes of `RUN`.
pub open spec fn run_token() -> Seq<u8> {
    seq![82u8, 85u8, 78u8]
}

/// The bytes of `Running`.
pub open spec fn running_token() -> Seq<u8> {
    seq![82u8, 117u8, 110u8, 110u8, 105u8, 110u8, 103u8]
}

/// The bytes of `STOP`.
pub open spec fn stop_token() -> Seq<u8> {
    seq![83u8, 84u8, 79u8, 80u8]
}

/// The bytes of `Stopped`.
pub open spec fn stopped_token() -> Seq<u8> {
    seq![83u8, 116u8, 111u8, 112u8, 112u8, 101u8, 100u8]
}

/// The position of the first occurrence of `b` in `s`, if any.
pub open spec fn find_byte(s: Seq<u8>, b: u8) -> Option<int>
    decreases s.len(),
{
    if s.len() == 0 {
        None
    } else if s[0] == b {
        Some(0)
    } else {
        match find_byte(s.drop_first(), b) {
            Some(i) => Some(i + 1),
            None => None,
        }
    }
}

proof fn lemma_find_byte_at(s: Seq<u8>, b: u8, i: int)
    requires
        0 <= i < s.len(),
        s[i] == b,
        forall|k: int| 0 <= k < i ==> s[k] != b,
    ensures
        find_byte(s, b) == Some(i),
    decreases i,
{
    if i > 0 {
        lemma_find_byte_at(s.drop_first(), b, i - 1);
    }
}

proof fn lemma_find_byte_none(s: Seq<u8>, b: u8)
    requires
        forall|k: int| 0 <= k < s.len() ==> s[k] != b,
    ensures
        find_byte(s, b) is None,
    decreases s.len(),
{
    if s.len() > 0 {
        lemma_find_byte_none(s.drop_first(), b);
    }
}

/// The position of the first occurrence of `b` in `s`, if any.
pub fn find_byte_in(s: &[u8], b: u8) -> (r: Option<usize>)
    ensures
        r matches Some(i) ==> i < s@.len() && s@[i as int] == b && find_byte(s@, b) == Some(
            i as int,
        ),
        r is None ==> find_byte(s@, b) is None,
{
    let mut i: usize = 0;
    while i < s.len()
        invariant
            0 <= i <= s@.len(),
            forall|k: int| 0 <= k < i ==> s@[k] != b,
        decreases s@.len() - i,
    {
        if s[i] == b {
            proof {
                lemma_find_byte_at(s@, b, i as int);
            }
            return Some(i);
        }
        i = i + 1;
    }
    proof {
        lemma_find_byte_none(s@, b);
    }
    None
}

/// What `split(':').nth(1)` sees on a trimmed line: the text between the
/// first colon and the second (or the end), or nothing when the line has no
/// colon at all.
pub open spec fn colon_field(t: Seq<u8>) -> Option<Seq<u8>> {
    match find_byte(t, 58) {
        None => None,
        Some(i) => {
            let rest = t.subrange(i + 1, t.len() as int);
            match find_byte(rest, 58) {
                None => Some(rest),
                Some(j) => Some(rest.subrange(0, j)),
            }
        },
    }
}

/// The running flag after one line: `STOP`/`Stopped` clears it, else
/// `RUN`/`Running` sets it, else it is unchanged.
pub open spec fn line_running(l: Seq<u8>, prev: bool) -> bool {
    let t = trimmed(l);
    let set = if contains_sub(t, run_token()) || contains_sub(t, running_token()) {
        true
    } else {
        prev
    };
    if contains_sub(t, stop_token()) || contains_sub(t, stopped_token()) {
        false
    } else {
        set
    }
}

/// The rotation speed after one line: a line containing `RPM` whose first
/// colon field parses as a sixteen-bit number replaces the previous value;
/// anything else leaves it unchanged.
pub open spec fn line_rpm(l: Seq<u8>, prev: u16) -> u16 {
    let t = trimmed(l);
    if contains_sub(t, rpm_token()) {
        match colon_field(t) {
            Some(f) => match parse_u16_spec(trimmed(f)) {
                Some(v) => v,
                None => prev,
            },
            None => prev,
        }
    } else {
        prev
    }
}

/// The running flag and rotation speed after all lines, later lines
/// overriding earlier ones, from the defaults `false` and `0`.
pub open spec fn status_fold(lines: Seq<Seq<u8>>) -> (bool, u16)
    decreases lines.len(),
{
    if lines.len() == 0 {
        (false, 0u16)
    } else {
        let p = status_fold(lines.drop_last());
        (line_running(lines.last(), p.0), line_rpm(lines.last(), p.1))
    }
}

/// The running flag parsed from a whole response.
pub open spec fn parsed_running(s: Seq<u8>) -> bool {
    status_fold(lines_of(s)).0
}

/// The rotation speed parsed from a whole response.
pub open spec fn parsed_rpm(s: Seq<u8>) -> u16 {
    status_fold(lines_of(s)).1
}

/// Later lines override earlier ones: whatever the earlier lines said, a
/// final line carrying a stop token leaves the status not running.
pub proof fn lemma_stop_line_wins(lines: Seq<Seq<u8>>, l: Seq<u8>)
    requires
        contains_sub(trimmed(l), stop_token()) || contains_sub(trimmed(l), stopped_token()),
    ensures
        !status_fold(lines.push(l)).0,
{
    assert(lines.push(l).drop_last() =~= lines);
}

/// Later lines override earlier ones: whatever the earlier lines said, a
/// final line carrying a run token and no stop token leaves the status
/// running.
pub proof fn lemma_run_line_wins(lines: Seq<Seq<u8>>, l: Seq<u8>)
    requires
        contains_sub(trimmed(l), run_token()) || contains_sub(trimmed(l), running_token()),
        !contains_sub(trimmed(l), stop_token()),
        !contains_sub(trimmed(l), stopped_token()),
    ensures
        status_fold(lines.push(l)).0,
{
    assert(lines.push(l).drop_last() =~= lines);
}

/// Parse a status response: scan every line, last line wins.
pub fn parse_status_text(resp: &[u8]) -> (r: (bool, u16))
    ensures
        r.0 == parsed_running(resp@),
        r.1 == parsed_rpm(resp@),
{
    let lines = split_lines(resp);
    let ghost lv = lines_of(resp@);
    let mut running = false;
    let mut rpm: u16 = 0;
    let mut j: usize = 0;
    proof {
        assert(lv.take(0) =~= Seq::<Seq<u8>>::empty());
    }
    while j < lines.len()
        invariant
            lv == lines_of(resp@),
            seq_views(lines@) == lv,
            lines@.len() == lv.len(),
            0 <= j <= lv.len(),
            running == status_fold(lv.take(j as int)).0,
            rpm == status_fold(lv.take(j as int)).1,
        decreases lv.len() - j,
    {
        proof {
            assert(lines@[j as int]@ == lv[j as int]);
            assert(lv.take(j + 1 as int).drop_last() =~= lv.take(j as int));
            assert(lv.take(j + 1 as int).last() == lv[j as int]);
        }
        let t = trim_bytes(lines[j].as_slice());
        let rpm_tok: [u8; 3] = [82u8, 80u8, 77u8];
        proof {
            assert(rpm_tok@ =~= rpm_token());
        }
        if find_sub(t.as_slice(), rpm_tok.as_slice()) {
            let field = match find_byte_in(t.as_slice(), 58u8) {
                Some(i) => {
                    let rest = crate::text::copy_range(t.as_slice(), i + 1, t.len());
                    match find_byte_in(rest.as_slice(), 58u8) {
                        Some(k) => Some(crate::text::copy_range(rest.as_slice(), 0, k)),
                        None => {
                            proof {
                                assert(rest@.subrange(0, rest@.len() as int) =~= rest@);
                            }
                            Some(rest)
                        },
                    }
                },
                None => None,
            };
            match field {
                Some(f) => {
                    let ft = trim_bytes(f.as_slice());
                    match parse_u16(ft.as_slice()) {
                        Some(v) => {
                            rpm = v;
                        },
                        None => {},
                    }
                },
                None => {},
            }
        }
        let run_tok: [u8; 3] = [82u8, 85u8, 78u8];
        let running_tok: [u8; 7] = [82u8, 117u8, 110u8, 110u8, 105u8, 110u8, 103u8];
        let stop_tok: [u8; 4] = [83u8, 84u8, 79u8, 80u8];
        let stopped_tok: [u8; 7] = [83u8, 116u8, 111u8, 112u8, 112u8, 101u8, 100u8];
        proof {
            assert(run_tok@ =~= run_token());
            assert(running_tok@ =~= running_token());
            assert(stop_tok@ =~= stop_token());
            assert(stopped_tok@ =~= stopped_token());
        }
        if find_sub(t.as_slice(), run_tok.as_slice()) || find_sub(
            t.as_slice(),
            running_tok.as_slice(),
        ) {
            running = true;
        }
        if find_sub(t.as_slice(), stop_tok.as_slice()) || find_sub(
            t.as_slice(),
            stopped_tok.as_slice(),
        ) {
            running = false;
        }
        j = j + 1;
    }
    proof {
        assert(lv.take(lv.len() as int) =~= lv);
    }
    (running, rpm)
}

} // verus!
