//! The transaction engine's decision logic: what each outcome of a bounded
//! transport read means for the current command, and the retrying boot
//! handshake. The loops that talk to the hardware feed these decisions one
//! event at a time.

use vstd::prelude::*;
use crate::commands::HttpCmd;
use crate::commands::ParseError;
use crate::bytes::is_match_at;
use crate::commands::DHCPSet;
use crate::ingress::lemma_cross_chunk_sentinel;
use crate::ingress::marker_error;
use crate::ingress::marker_ok;
use crate::ingress::spec_completes;
use crate::ingress::spec_fed;
use crate::ingress::Ingress;
use crate::ingress::INGRESS_BUF_SIZE;
use crate::ingress::RES_QUEUE_CAP;
use crate::ingress::SENTINEL_WINDOW;
use crate::responses::EmptyResponse;
use crate::types::HTTPMethode;
use crate::types::ContentType;
use crate::types::TransportType;

verus! {

/// Why a transaction failed at the reply stage.
#[derive(Clone, Copy, Debug, PartialEq, Eq, Structural)]
pub enum ResponseError {
    /// The read stopped cleanly but no completed reply was queued.
    InvalidResponse,
    /// The reply text was rejected.
    Parse(ParseError),
}

/// A transport failure, as far as the driver can diagnose it.
#[derive(Clone, Copy, Debug, PartialEq, Eq, Structural)]
pub enum TransportFault {
    /// The poll budget ran out before a reply completed.
    Timeout,
    /// The transport reported a hard error.
    Fault,
}

/// What can go wrong driving the module.
#[derive(Clone, Copy, Debug, PartialEq, Eq, Structural)]
pub enum WifiError {
    /// The boot handshake exhausted its probes; the module must be
    /// re-powered.
    CouldNotStartEsp,
    /// The module reported a failure.
    WifiError,
    /// A command could not be formatted.
    FmtError,
    /// The transport failed; fatal to the current transaction.
    UartError(TransportFault),
    /// A module control line could not be driven.
    PinError,
    /// A command did not fit its send buffer; the value is the size the
    /// buffer would have needed.
    AtCommandError(usize),
    /// The reply was missing or did not parse.
    AtatError(ResponseError),
}

impl From<usize> for WifiError {
    /// A builder's too-small-buffer report becomes an argument error.
    fn from(error: usize) -> (r: Self) {
        WifiError::AtCommandError(error)
    }
}

impl vstd::std_specs::convert::FromSpecImpl<usize> for WifiError {
    open spec fn obeys_from_spec() -> bool {
        true
    }

    open spec fn from_spec(error: usize) -> Self {
        WifiError::AtCommandError(error)
    }
}

impl From<ParseError> for WifiError {
    /// A rejected reply becomes a protocol error.
    fn from(error: ParseError) -> (r: Self) {
        WifiError::AtatError(ResponseError::Parse(error))
    }
}

impl vstd::std_specs::convert::FromSpecImpl<ParseError> for WifiError {
    open spec fn obeys_from_spec() -> bool {
        true
    }

    open spec fn from_spec(error: ParseError) -> Self {
        WifiError::AtatError(ResponseError::Parse(error))
    }
}

/// Ticks of the transport timer one bounded read may spend.
pub const READ_UNIT_TICKS: u32 = 1_000_000;

/// Zero-byte polls the probe transaction tolerates.
pub const PROBE_TIMEOUT_UNITS: usize = 1;

/// Zero-byte polls an ordinary transaction tolerates.
pub const COMMAND_TIMEOUT_UNITS: usize = 10;

/// Probes the boot handshake spends before giving up.
pub const BOOT_PROBES: usize = 5;

/// Progress of one read loop: bytes collected, and zero-byte polls spent.
#[derive(Clone, Copy, Debug, PartialEq, Eq, Structural)]
pub struct ReadState {
    pub received: usize,
    pub zero_reads: usize,
}

/// One outcome of a bounded read on the transport.
#[derive(Debug)]
pub enum ReadEvent {
    /// The read filled all remaining space before its budget ran out.
    Filled,
    /// The budget ran out with nothing read.
    Empty,
    /// The budget ran out after yielding these bytes.
    Data(Vec<u8>),
    /// A hard transport fault.
    Fault,
}

/// What the read loop does after one event.
#[derive(Clone, Copy, Debug, PartialEq, Eq, Structural)]
pub enum ReadStep {
    /// Poll again from this state.
    Continue(ReadState),
    /// The reply is complete; the value is the byte count collected.
    Done(usize),
    /// The poll budget is exhausted.
    TimedOut,
    /// The transport failed.
    Failed,
}

/// The read loop's decision on one event, `buffered` being what the
/// digester had accumulated before it. A filled buffer completes the read,
/// as does running out of space; fresh bytes complete it exactly when a
/// sentinel stands in the digester's carried window joined with them — so a
/// sentinel split across two reads completes on the second; the poll budget
/// admits `timeout_units` zero-byte reads and times the next one out; a
/// fault is fatal.
pub open spec fn spec_read_step(
    capacity: usize,
    timeout_units: usize,
    st: ReadState,
    ev: ReadEvent,
    buffered: Seq<u8>,
) -> ReadStep {
    match ev {
        ReadEvent::Filled => ReadStep::Done(st.received),
        ReadEvent::Empty => if st.zero_reads >= timeout_units {
            ReadStep::TimedOut
        } else {
            ReadStep::Continue(
                ReadState { received: st.received, zero_reads: (st.zero_reads + 1) as usize },
            )
        },
        ReadEvent::Data(bytes) => {
            let total = (st.received + bytes@.len()) as usize;
            if spec_completes(buffered, bytes@) {
                ReadStep::Done(total)
            } else if total >= capacity {
                ReadStep::Done(total)
            } else {
                ReadStep::Continue(ReadState { received: total, zero_reads: st.zero_reads })
            }
        },
        ReadEvent::Fault => ReadStep::Failed,
    }
}

impl ReadState {
    /// The loop's starting point.
    pub fn start() -> (r: ReadState)
        ensures
            r.received == 0 && r.zero_reads == 0,
    {
        ReadState { received: 0, zero_reads: 0 }
    }
}

/// Decides what one transport event means for the read in progress, handing
/// fresh bytes to the digester as they arrive so that a reply sentinel is
/// found wherever it falls — also split across two reads.
pub fn read_step(
    capacity: usize,
    timeout_units: usize,
    st: ReadState,
    ev: &ReadEvent,
    ingress: &mut Ingress,
) -> (r: ReadStep)
    requires
        old(ingress).wf(),
        match *ev {
            ReadEvent::Data(b) => st.received + b@.len() <= usize::MAX,
            _ => true,
        },
    ensures
        final(ingress).wf(),
        r == spec_read_step(capacity, timeout_units, st, *ev, old(ingress).buffer()),
        final(ingress).urcs() == old(ingress).urcs(),
        match *ev {
            ReadEvent::Data(b) => {
                &&& !spec_completes(old(ingress).buffer(), b@) ==> final(ingress).buffer()
                    == spec_fed(old(ingress).buffer(), b@) && final(ingress).responses() == old(
                    ingress,
                ).responses()
                &&& spec_completes(old(ingress).buffer(), b@) ==> final(ingress).buffer()
                    == Seq::<u8>::empty() && (if old(ingress).responses().len() < RES_QUEUE_CAP {
                    final(ingress).responses() == old(ingress).responses().push(
                        spec_fed(old(ingress).buffer(), b@),
                    )
                } else {
                    final(ingress).responses() == old(ingress).responses()
                })
            },
            _ => final(ingress).buffer() == old(ingress).buffer() && final(ingress).responses()
                == old(ingress).responses(),
        },
{
    match ev {
        ReadEvent::Filled => ReadStep::Done(st.received),
        ReadEvent::Empty => {
            if st.zero_reads >= timeout_units {
                ReadStep::TimedOut
            } else {
                ReadStep::Continue(
                    ReadState { received: st.received, zero_reads: st.zero_reads + 1 },
                )
            }
        },
        ReadEvent::Data(bytes) => {
            let completed = ingress.write(bytes.as_slice());
            let total = st.received + bytes.len();
            if completed {
                ReadStep::Done(total)
            } else if total >= capacity {
                ReadStep::Done(total)
            } else {
                ReadStep::Continue(ReadState { received: total, zero_reads: st.zero_reads })
            }
        },
        ReadEvent::Fault => ReadStep::Failed,
    }
}

/// Where the read loop lands after taking the events in order, the digester
/// starting with `buffered`: the first decision other than continuing, or
/// the state still awaiting events.
pub open spec fn spec_read_outcome(
    capacity: usize,
    timeout_units: usize,
    st: ReadState,
    buffered: Seq<u8>,
    evs: Seq<ReadEvent>,
) -> ReadStep
    decreases evs.len(),
{
    if evs.len() == 0 {
        ReadStep::Continue(st)
    } else {
        match spec_read_step(capacity, timeout_units, st, evs[0], buffered) {
            ReadStep::Continue(st2) => {
                let fed = match evs[0] {
                    ReadEvent::Data(b) => spec_fed(buffered, b@),
                    _ => buffered,
                };
                spec_read_outcome(capacity, timeout_units, st2, fed, evs.drop_first())
            },
            other => other,
        }
    }
}

/// Runs the read loop over a recorded event sequence, digesting each chunk
/// as it arrives.
pub fn run_read(
    capacity: usize,
    timeout_units: usize,
    events: &Vec<ReadEvent>,
    ingress: &mut Ingress,
) -> (r: ReadStep)
    requires
        old(ingress).wf(),
        capacity <= 0x7fff_ffff,
        forall|i: int|
            0 <= i < events@.len() ==> match #[trigger] events@[i] {
                ReadEvent::Data(b) => b@.len() <= capacity,
                _ => true,
            },
    ensures
        final(ingress).wf(),
        r == spec_read_outcome(
            capacity,
            timeout_units,
            ReadState { received: 0, zero_reads: 0 },
            old(ingress).buffer(),
            events@,
        ),
{
    let mut st = ReadState { received: 0, zero_reads: 0 };
    let mut i: usize = 0;
    proof {
        assert(events@.skip(0) =~= events@);
    }
    while i < events.len()
        invariant
            i <= events@.len(),
            capacity <= 0x7fff_ffff,
            st.received <= capacity,
            ingress.wf(),
            forall|k: int|
                0 <= k < events@.len() ==> match #[trigger] events@[k] {
                    ReadEvent::Data(b) => b@.len() <= capacity,
                    _ => true,
                },
            spec_read_outcome(
                capacity,
                timeout_units,
                ReadState { received: 0, zero_reads: 0 },
                old(ingress).buffer(),
                events@,
            ) == spec_read_outcome(
                capacity,
                timeout_units,
                st,
                ingress.buffer(),
                events@.skip(i as int),
            ),
        decreases events@.len() - i,
    {
        let ev = &events[i];
        proof {
            assert(events@.skip(i as int)[0] == events@[i as int]);
            assert(events@.skip(i as int).drop_first() =~= events@.skip(i + 1));
        }
        let step = read_step(capacity, timeout_units, st, ev, ingress);
        match step {
            ReadStep::Continue(st2) => {
                st = st2;
            },
            other => {
                return other;
            },
        }
        i += 1;
    }
    ReadStep::Continue(st)
}

/// Law: a read loop that is handed nothing for `timeout_units + 1` polls
/// stops right there with a timeout, whatever events would follow and
/// whatever the digester holds.
pub proof fn lemma_timeout_accounting(
    capacity: usize,
    timeout_units: usize,
    buffered: Seq<u8>,
    evs: Seq<ReadEvent>,
)
    requires
        timeout_units + 1 <= evs.len(),
        forall|i: int| 0 <= i < timeout_units + 1 ==> (#[trigger] evs[i]) matches ReadEvent::Empty,
    ensures
        spec_read_outcome(
            capacity,
            timeout_units,
            ReadState { received: 0, zero_reads: 0 },
            buffered,
            evs,
        ) == ReadStep::TimedOut,
{
    lemma_timeout_accounting_from(
        capacity,
        timeout_units,
        ReadState { received: 0, zero_reads: 0 },
        buffered,
        evs,
    );
}

proof fn lemma_timeout_accounting_from(
    capacity: usize,
    timeout_units: usize,
    st: ReadState,
    buffered: Seq<u8>,
    evs: Seq<ReadEvent>,
)
    requires
        st.zero_reads <= timeout_units,
        timeout_units + 1 - st.zero_reads <= evs.len(),
        forall|i: int|
            0 <= i < timeout_units + 1 - st.zero_reads ==> (#[trigger] evs[i]) matches ReadEvent::Empty,
    ensures
        spec_read_outcome(capacity, timeout_units, st, buffered, evs) == ReadStep::TimedOut,
    decreases timeout_units + 1 - st.zero_reads,
{
    assert(evs[0] matches ReadEvent::Empty);
    if st.zero_reads < timeout_units {
        let st2 = ReadState { received: st.received, zero_reads: (st.zero_reads + 1) as usize };
        assert forall|i: int|
            0 <= i < timeout_units + 1 - st2.zero_reads implies (#[trigger] evs.drop_first()[i]) matches ReadEvent::Empty by {
            assert(evs.drop_first()[i] == evs[i + 1]);
        }
        lemma_timeout_accounting_from(capacity, timeout_units, st2, buffered, evs.drop_first());
    }
}

/// Law: a reply sentinel split across two reads completes the read on the
/// second one, with both chunks counted. Starting from an empty digester,
/// a first chunk without a completed reply is followed by a second; `OK` or
/// `ERROR` stands in the two chunks joined, beginning in the last four
/// bytes of the first (or later); the loop's decisions are then to continue
/// and to complete.
pub proof fn lemma_split_sentinel_completes(
    capacity: usize,
    timeout_units: usize,
    evs: Seq<ReadEvent>,
    i: int,
)
    requires
        evs.len() == 2,
        evs[0] matches ReadEvent::Data(..),
        evs[1] matches ReadEvent::Data(..),
        evs[0]->Data_0@.len() + evs[1]->Data_0@.len() <= INGRESS_BUF_SIZE,
        evs[0]->Data_0@.len() + evs[1]->Data_0@.len() < capacity,
        !spec_completes(Seq::<u8>::empty(), evs[0]->Data_0@),
        i >= evs[0]->Data_0@.len() - (SENTINEL_WINDOW as int),
        is_match_at(evs[0]->Data_0@ + evs[1]->Data_0@, marker_ok(), i) || is_match_at(
            evs[0]->Data_0@ + evs[1]->Data_0@,
            marker_error(),
            i,
        ),
    ensures
        spec_read_outcome(
            capacity,
            timeout_units,
            ReadState { received: 0, zero_reads: 0 },
            Seq::<u8>::empty(),
            evs,
        ) == ReadStep::Done((evs[0]->Data_0@.len() + evs[1]->Data_0@.len()) as usize),
{
    let b0 = evs[0]->Data_0@;
    let b1 = evs[1]->Data_0@;
    let st0 = ReadState { received: 0, zero_reads: 0 };
    let fed = spec_fed(Seq::<u8>::empty(), b0);
    assert(fed =~= b0);
    assert(spec_read_step(capacity, timeout_units, st0, evs[0], Seq::<u8>::empty())
        == ReadStep::Continue(ReadState { received: b0.len() as usize, zero_reads: 0 }));
    lemma_cross_chunk_sentinel(b0, b1, i);
    assert(spec_completes(fed, b1));
    let st1 = ReadState { received: b0.len() as usize, zero_reads: 0 };
    assert(spec_read_step(capacity, timeout_units, st1, evs[1], fed) == ReadStep::Done(
        (b0.len() + b1.len()) as usize,
    ));
    assert(evs.drop_first()[0] == evs[1]);
    assert(spec_read_outcome(capacity, timeout_units, st1, fed, evs.drop_first())
        == ReadStep::Done((b0.len() + b1.len()) as usize));
    assert(spec_read_outcome(
        capacity,
        timeout_units,
        ReadState { received: 0, zero_reads: 0 },
        Seq::<u8>::empty(),
        evs,
    ) == ReadStep::Done((b0.len() + b1.len()) as usize));
}

/// Index of the first successful probe, or the count when none succeeded.
pub open spec fn spec_first_success(probes: Seq<bool>) -> int
    decreases probes.len(),
{
    if probes.len() == 0 {
        0
    } else if probes[0] {
        0
    } else {
        1 + spec_first_success(probes.drop_first())
    }
}

/// The handshake succeeds exactly when one of the first five probes does.
pub open spec fn spec_check_esp(probes: Seq<bool>) -> Result<EmptyResponse, WifiError> {
    if spec_first_success(probes) < BOOT_PROBES && spec_first_success(probes) < probes.len() {
        Ok(EmptyResponse {  })
    } else {
        Err(WifiError::CouldNotStartEsp)
    }
}

pub proof fn lemma_first_success(probes: Seq<bool>)
    ensures
        0 <= spec_first_success(probes) <= probes.len(),
        spec_first_success(probes) < probes.len() ==> probes[spec_first_success(probes)],
        forall|m: int| 0 <= m < spec_first_success(probes) ==> !probes[m],
    decreases probes.len(),
{
    if probes.len() != 0 && !probes[0] {
        lemma_first_success(probes.drop_first());
        let k = spec_first_success(probes);
        assert forall|m: int| 0 <= m < k implies !probes[m] by {
            if m > 0 {
                assert(probes.drop_first()[m - 1] == probes[m]);
            }
        }
        if k < probes.len() {
            assert(probes.drop_first()[k - 1] == probes[k]);
        }
    }
}

/// `spec_first_success` is pinned down by what a caller observed.
pub proof fn lemma_first_success_at(probes: Seq<bool>, k: int)
    requires
        0 <= k <= probes.len(),
        forall|m: int| 0 <= m < k ==> !probes[m],
        k < probes.len() ==> probes[k],
    ensures
        spec_first_success(probes) == k,
    decreases probes.len(),
{
    if probes.len() != 0 && !probes[0] {
        let t = probes.drop_first();
        assert forall|m: int| 0 <= m < k - 1 implies !t[m] by {
            assert(t[m] == probes[m + 1]);
        }
        if k - 1 < t.len() {
            assert(t[k - 1] == probes[k]);
        }
        lemma_first_success_at(t, k - 1);
    }
}

/// What the boot handshake does after one probe.
#[derive(Clone, Copy, Debug, PartialEq, Eq, Structural)]
pub enum HandshakeStep {
    /// The module answered; the handshake is over.
    Success,
    /// Probe again; this many probes are spent.
    Retry(usize),
    /// The probe budget is exhausted.
    Failed,
}

/// The handshake's decision after one probe: a good probe succeeds; a bad
/// one retries until five are spent.
pub open spec fn spec_handshake_step(attempts: usize, probe_ok: bool) -> HandshakeStep {
    if probe_ok {
        HandshakeStep::Success
    } else if attempts + 1 >= BOOT_PROBES {
        HandshakeStep::Failed
    } else {
        HandshakeStep::Retry((attempts + 1) as usize)
    }
}

/// Decides what one probe outcome means for the handshake, `attempts`
/// probes having been spent before it.
pub fn handshake_step(attempts: usize, probe_ok: bool) -> (r: HandshakeStep)
    requires
        attempts < BOOT_PROBES,
    ensures
        r == spec_handshake_step(attempts, probe_ok),
{
    if probe_ok {
        HandshakeStep::Success
    } else if attempts + 1 >= BOOT_PROBES {
        HandshakeStep::Failed
    } else {
        HandshakeStep::Retry(attempts + 1)
    }
}

/// Runs the boot handshake against the given probe outcomes: succeeds at
/// the first good probe, consulting at most five; fails when five probes
/// failed or the outcomes ran out first.
pub fn check_esp(probes: &Vec<bool>) -> (r: Result<EmptyResponse, WifiError>)
    ensures
        r == spec_check_esp(probes@),
{
    let mut i: usize = 0;
    while i < BOOT_PROBES && i < probes.len()
        invariant
            i <= BOOT_PROBES,
            i <= probes@.len(),
            forall|m: int| 0 <= m < i ==> !probes@[m],
        decreases BOOT_PROBES - i,
    {
        if probes[i] {
            proof {
                lemma_first_success_at(probes@, i as int);
            }
            return Ok(EmptyResponse {  });
        }
        i += 1;
    }
    proof {
        lemma_first_success(probes@);
        if spec_first_success(probes@) < BOOT_PROBES && spec_first_success(probes@)
            < probes@.len() {
            assert(probes@[spec_first_success(probes@)]);
            assert(spec_first_success(probes@) < i);
        }
    }
    Err(WifiError::CouldNotStartEsp)
}

/// Law: four failed probes and a good fifth make the handshake succeed on
/// its last attempt, while five failed probes exhaust it.
pub proof fn lemma_boot_handshake(probes: Seq<bool>)
    requires
        probes.len() >= 5,
    ensures
        ((forall|i: int| 0 <= i < 4 ==> !probes[i]) && probes[4]) ==> spec_check_esp(probes)
            == Ok::<EmptyResponse, WifiError>(EmptyResponse {  }),
        (forall|i: int| 0 <= i < 5 ==> !probes[i]) ==> spec_check_esp(probes) == Err::<
            EmptyResponse,
            WifiError,
        >(WifiError::CouldNotStartEsp),
{
    if (forall|i: int| 0 <= i < 4 ==> !probes[i]) && probes[4] {
        lemma_first_success_at(probes, 4);
    }
    if forall|i: int| 0 <= i < 5 ==> !probes[i] {
        lemma_first_success(probes);
        if spec_first_success(probes) < 5 {
            assert(probes[spec_first_success(probes)]);
        }
    }
}

/// Takes the completed reply a clean read should have queued; its absence
/// is a protocol error.
pub fn take_response(ingress: &mut Ingress) -> (r: Result<Vec<u8>, WifiError>)
    requires
        old(ingress).wf(),
    ensures
        final(ingress).wf(),
        old(ingress).responses().len() == 0 ==> r == Err::<Vec<u8>, WifiError>(
            WifiError::AtatError(ResponseError::InvalidResponse),
        ) && final(ingress).responses() == old(ingress).responses(),
        old(ingress).responses().len() > 0 ==> r is Ok && r.unwrap()@ == old(
            ingress,
        ).responses()[0] && final(ingress).responses() == old(ingress).responses().drop_first(),
        final(ingress).buffer() == old(ingress).buffer(),
        final(ingress).urcs() == old(ingress).urcs(),
{
    match ingress.dequeue() {
        Some(v) => Ok(v),
        None => Err(WifiError::AtatError(ResponseError::InvalidResponse)),
    }
}

/// The command an HTTP fetch sends: a GET for `url` over the given
/// transport, XML content, no body.
pub fn http_get_command(url: &[u8], transport_type: TransportType) -> (r: HttpCmd)
    ensures
        r.methode == HTTPMethode::GET,
        r.content_type == ContentType::TEXT_XML,
        r.url@ == url@,
        r.host is None,
        r.path is None,
        r.transport_type == transport_type,
        r.data is None,
        r.header is None,
{
    HttpCmd {
        methode: HTTPMethode::GET,
        content_type: ContentType::TEXT_XML,
        url: vstd::slice::slice_to_vec(url),
        host: None,
        path: None,
        transport_type,
        data: None,
        header: None,
    }
}

/// The DHCP line the driver sends to switch the address client on: operate
/// setting 1, mode 1, as `DHCPSet` renders them.
pub fn dhcp_enable_command() -> (r: DHCPSet)
    ensures
        r.operate == 1,
        r.mode == 1,
{
    DHCPSet { operate: 1, mode: 1 }
}

} // verus!
