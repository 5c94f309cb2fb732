//! Decisions a connected device makes around its I/O: when to initialize, which HID interface
//! to open first, how often to retry connecting, what to report for missing strings, and which
//! packets clearing the keys sends.
use vstd::prelude::*;
use vstd::string::StringExecFns;

use crate::bytes::{lemma_views_push, views};
use crate::error::AjazzError;
use crate::kind::Kind;
use crate::n1::{n1_secondary_screen_stages, spec_n1_background_metadata, spec_payload_stages, stage_views, PayloadStage};
use crate::reports::{image_data_reports, params_for, spec_image_reports, WriteImageParameters};

verus! {

/// The packets that start a session: the N1 also needs the switch to software mode.
pub open spec fn spec_initialize_packets(kind: Kind) -> Seq<Seq<u8>> {
    if kind.spec_is_n1() {
        seq![kind.spec_initialize_packet(), kind.spec_n1_software_mode_packet()]
    } else {
        seq![kind.spec_initialize_packet()]
    }
}

/// Pause, in milliseconds, after each initialization packet.
pub open spec fn spec_initialize_pause_ms(kind: Kind) -> u64 {
    if kind.spec_is_n1() {
        20
    } else {
        0
    }
}

/// What a device sends before its first command: the session packets once, nothing after.
pub open spec fn spec_initialize(initialized: bool, kind: Kind) -> (bool, Seq<Seq<u8>>) {
    if initialized {
        (true, Seq::empty())
    } else {
        (true, spec_initialize_packets(kind))
    }
}

/// Packets to write before a command, and the pause after each of them.
#[derive(Debug)]
pub struct InitPlan {
    /// The packets, in order.
    pub packets: Vec<Vec<u8>>,
    /// Milliseconds to wait after each packet.
    pub pause_ms: u64,
}

/// Marks the device initialized and returns what must be sent first: the session packets the
/// first time, nothing afterwards.
pub fn initialize(initialized: &mut bool, kind: Kind) -> (r: InitPlan)
    ensures
        *final(initialized) == spec_initialize(*old(initialized), kind).0,
        views(r.packets@) == spec_initialize(*old(initialized), kind).1,
        r.pause_ms == spec_initialize_pause_ms(kind),
{
    let pause_ms: u64 = if kind.is_n1() {
        20
    } else {
        0
    };
    let mut packets: Vec<Vec<u8>> = Vec::new();
    if *initialized {
        proof {
            assert(views(packets@) =~= Seq::<Seq<u8>>::empty());
        }
        return InitPlan { packets, pause_ms };
    }
    *initialized = true;
    let init = kind.initialize_packet();
    proof {
        lemma_views_push(packets@, init);
    }
    packets.push(init);
    if kind.is_n1() {
        let mode = kind.n1_software_mode_packet();
        proof {
            lemma_views_push(packets@, mode);
        }
        packets.push(mode);
    }
    proof {
        assert(views(packets@) =~= spec_initialize_packets(kind));
    }
    InitPlan { packets, pause_ms }
}

/// A device is initialized at most once: whatever state it starts in, initializing a second
/// time sends nothing and leaves it initialized.
pub proof fn lemma_initialize_once(initialized: bool, kind: Kind)
    ensures
        spec_initialize(spec_initialize(initialized, kind).0, kind) == (true, Seq::<Seq<u8>>::empty()),
{
}

/// The packets that blank every key of a model that takes the clear command: clear all keys,
/// then, on v2 models, commit.
pub open spec fn spec_clear_all_packets(kind: Kind) -> Seq<Seq<u8>> {
    if kind.spec_is_v2_api() {
        seq![kind.spec_clear_button_image_packet(0xff), kind.spec_flush_packet()]
    } else {
        seq![kind.spec_clear_button_image_packet(0xff)]
    }
}

/// How to blank every key.
#[derive(Debug)]
pub struct ClearAllPlan {
    /// Command packets to write in order.
    pub packets: Vec<Vec<u8>>,
    /// Background uploads to perform in order: the metadata stages, then the image stages.
    pub background: Option<(Vec<PayloadStage>, Vec<PayloadStage>)>,
    /// Whether the cached key images are forgotten once the plan has been carried out.
    pub clear_cache: bool,
}

/// How to blank every key of `kind`. Models that take the clear command get its packets. The
/// N1 instead gets its background replaced by `blank_image`, an encoded blank picture of the
/// size of its strip screen, after which the cached key images are forgotten; without a strip
/// screen size this is refused, as is a picture whose size does not fit in 32 bits.
pub fn clear_all_plan(kind: Kind, strip_size: Option<(u16, u16)>, blank_image: &[u8]) -> (r: Result<ClearAllPlan, AjazzError>)
    ensures
        !kind.spec_is_n1() ==> (r matches Ok(p) && views(p.packets@) == spec_clear_all_packets(kind)
            && p.background is None && !p.clear_cache),
        kind.spec_is_n1() && strip_size is None ==> r == Err::<ClearAllPlan, AjazzError>(AjazzError::UnsupportedOperation),
        kind.spec_is_n1() && strip_size is Some && blank_image@.len() > u32::MAX ==> r == Err::<ClearAllPlan, AjazzError>(
            AjazzError::UnsupportedOperation,
        ),
        kind.spec_is_n1() && strip_size is Some && blank_image@.len() <= u32::MAX ==> (r matches Ok(p) && {
            &&& p.packets@.len() == 0
            &&& p.clear_cache
            &&& p.background matches Some((meta, img))
            &&& stage_views(meta@) == spec_payload_stages(
                kind,
                spec_n1_background_metadata(blank_image@.len(), 0, 0, strip_size.unwrap().0, strip_size.unwrap().1, 0x01),
                0x00,
                0x00,
            )
            &&& stage_views(img@) == spec_payload_stages(kind, blank_image@, 0x01, 0x00)
        }),
{
    if kind.is_n1() {
        let (width, height) = match strip_size {
            Some(size) => size,
            None => return Err(AjazzError::UnsupportedOperation),
        };
        let stages = match n1_secondary_screen_stages(kind, blank_image, width, height) {
            Ok(stages) => stages,
            Err(e) => return Err(e),
        };
        return Ok(ClearAllPlan { packets: Vec::new(), background: Some(stages), clear_cache: true });
    }
    let mut packets: Vec<Vec<u8>> = Vec::new();
    let clear = kind.clear_button_image_packet(crate::request::CMD_CLEAR_ALL);
    proof {
        lemma_views_push(packets@, clear);
    }
    packets.push(clear);
    if kind.is_v2_api() {
        let flush = kind.flush_packet();
        proof {
            lemma_views_push(packets@, flush);
        }
        packets.push(flush);
    }
    proof {
        assert(views(packets@) =~= spec_clear_all_packets(kind));
    }
    Ok(ClearAllPlan { packets, background: None, clear_cache: false })
}

/// The packets that upload a boot logo: the logo announcement, a commit, then the image reports.
pub open spec fn spec_logo_upload_packets(kind: Kind, image_data: Seq<u8>) -> Seq<Seq<u8>> {
    seq![kind.spec_logo_image_packet(image_data.len()), kind.spec_flush_packet()] + spec_image_reports(
        image_data,
        params_for(kind),
    )
}

/// The packets that upload a boot logo.
pub fn logo_upload_packets(kind: Kind, image_data: &[u8]) -> (r: Vec<Vec<u8>>)
    ensures
        views(r@) == spec_logo_upload_packets(kind, image_data@),
{
    let mut packets: Vec<Vec<u8>> = Vec::new();
    let logo = kind.logo_image_packet(image_data);
    proof {
        lemma_views_push(packets@, logo);
    }
    packets.push(logo);
    let flush = kind.flush_packet();
    proof {
        lemma_views_push(packets@, flush);
    }
    packets.push(flush);
    let mut reports = image_data_reports(image_data, WriteImageParameters::for_kind(kind));
    let ghost before = packets@;
    let ghost rs = reports@;
    packets.append(&mut reports);
    proof {
        assert(views(packets@) =~= views(before) + views(rs));
        assert(views(packets@) =~= spec_logo_upload_packets(kind, image_data@));
    }
    packets
}

/// What a HID enumeration reports of one interface.
#[derive(Debug)]
pub struct HidCandidate {
    /// USB vendor id.
    pub vendor_id: u16,
    /// USB product id.
    pub product_id: u16,
    /// Serial number, where the device reports one.
    pub serial_number: Option<String>,
    /// HID usage page of the interface.
    pub usage_page: u16,
    /// HID usage of the interface.
    pub usage: u16,
}

/// The interface belongs to a device of `kind` with serial number `serial`.
pub open spec fn candidate_matches(kind: Kind, serial: Seq<char>, c: HidCandidate) -> bool {
    &&& c.vendor_id == kind.spec_vendor_id()
    &&& c.product_id == kind.spec_product_id()
    &&& c.serial_number matches Some(s) && s@ == serial
}

/// Preference among an N1's interfaces: the vendor input interface first, then the vendor
/// output interface, then any other.
pub open spec fn n1_rank(c: HidCandidate) -> u8 {
    if c.usage_page == 0xffa0 && c.usage == 0x0001 {
        0
    } else if c.usage_page == 0xffa0 && c.usage == 0x0002 {
        1
    } else {
        2
    }
}

/// Indices, in order, of the first `n` interfaces that match and, where `rank` is given, have
/// that rank.
pub open spec fn matching_indices(kind: Kind, serial: Seq<char>, cands: Seq<HidCandidate>, rank: Option<u8>, n: int) -> Seq<usize>
    decreases n,
{
    if n <= 0 {
        Seq::empty()
    } else {
        let earlier = matching_indices(kind, serial, cands, rank, n - 1);
        let c = cands[n - 1];
        if candidate_matches(kind, serial, c) && (rank matches Some(r) ==> n1_rank(c) == r) {
            earlier.push((n - 1) as usize)
        } else {
            earlier
        }
    }
}

/// The order in which to try a device's interfaces: the matching ones in enumeration order,
/// and on the N1 sorted (stably) by preference.
pub open spec fn spec_connect_order(kind: Kind, serial: Seq<char>, cands: Seq<HidCandidate>) -> Seq<usize> {
    let n = cands.len() as int;
    if kind.spec_is_n1() {
        matching_indices(kind, serial, cands, Some(0u8), n) + matching_indices(kind, serial, cands, Some(1u8), n)
            + matching_indices(kind, serial, cands, Some(2u8), n)
    } else {
        matching_indices(kind, serial, cands, None, n)
    }
}

fn rank_of(c: &HidCandidate) -> (r: u8)
    ensures
        r == n1_rank(*c),
{
    if c.usage_page == 0xffa0 && c.usage == 0x0001 {
        0
    } else if c.usage_page == 0xffa0 && c.usage == 0x0002 {
        1
    } else {
        2
    }
}

fn collect_matching(kind: Kind, serial: &String, cands: &Vec<HidCandidate>, rank: Option<u8>, out: &mut Vec<usize>)
    ensures
        final(out)@ == old(out)@ + matching_indices(kind, serial@, cands@, rank, cands@.len() as int),
{
    let ghost start = out@;
    let mut i: usize = 0;
    while i < cands.len()
        invariant
            i <= cands@.len(),
            out@ == start + matching_indices(kind, serial@, cands@, rank, i as int),
        decreases cands@.len() - i,
    {
        let c = &cands[i];
        let serial_ok = match &c.serial_number {
            Some(s) => *s == *serial,
            None => false,
        };
        let rank_ok = match rank {
            Some(r) => rank_of(c) == r,
            None => true,
        };
        if c.vendor_id == kind.vendor_id() && c.product_id == kind.product_id() && serial_ok && rank_ok {
            out.push(i);
        }
        proof {
            assert(out@ =~= start + matching_indices(kind, serial@, cands@, rank, i + 1));
        }
        i = i + 1;
    }
}

/// The order in which to try to open a device's HID interfaces.
pub fn connect_order(kind: Kind, serial: &str, cands: &Vec<HidCandidate>) -> (r: Vec<usize>)
    ensures
        r@ == spec_connect_order(kind, serial@, cands@),
{
    let serial = String::from_str(serial);
    let mut out: Vec<usize> = Vec::new();
    if kind.is_n1() {
        collect_matching(kind, &serial, cands, Some(0u8), &mut out);
        collect_matching(kind, &serial, cands, Some(1u8), &mut out);
        collect_matching(kind, &serial, cands, Some(2u8), &mut out);
    } else {
        collect_matching(kind, &serial, cands, None, &mut out);
    }
    proof {
        assert(out@ =~= spec_connect_order(kind, serial@, cands@));
    }
    out
}

/// Properties of the matching indices: strictly increasing, in range, each a matching
/// interface of the requested rank, and every such interface among them.
pub proof fn lemma_matching_indices(kind: Kind, serial: Seq<char>, cands: Seq<HidCandidate>, rank: Option<u8>, n: int)
    requires
        0 <= n <= cands.len(),
        cands.len() <= usize::MAX,
    ensures
        forall|a: int, b: int|
            0 <= a < b < matching_indices(kind, serial, cands, rank, n).len() ==> matching_indices(
                kind,
                serial,
                cands,
                rank,
                n,
            )[a] < matching_indices(kind, serial, cands, rank, n)[b],
        forall|a: int|
            0 <= a < matching_indices(kind, serial, cands, rank, n).len() ==> {
                let i = #[trigger] matching_indices(kind, serial, cands, rank, n)[a];
                &&& i < n
                &&& candidate_matches(kind, serial, cands[i as int])
                &&& (rank matches Some(r) ==> n1_rank(cands[i as int]) == r)
            },
        forall|i: int|
            0 <= i < n && candidate_matches(kind, serial, cands[i]) && (rank matches Some(r) ==> n1_rank(cands[i]) == r)
                ==> matching_indices(kind, serial, cands, rank, n).contains(i as usize),
    decreases n,
{
    if n > 0 {
        lemma_matching_indices(kind, serial, cands, rank, n - 1);
        let earlier = matching_indices(kind, serial, cands, rank, n - 1);
        let now = matching_indices(kind, serial, cands, rank, n);
        let c = cands[n - 1];
        if candidate_matches(kind, serial, c) && (rank matches Some(r) ==> n1_rank(c) == r) {
            assert(now == earlier.push((n - 1) as usize));
            assert(((n - 1) as usize) as int == n - 1);
            assert forall|a: int| 0 <= a < now.len() implies {
                let i = #[trigger] now[a];
                &&& i < n
                &&& candidate_matches(kind, serial, cands[i as int])
                &&& (rank matches Some(r) ==> n1_rank(cands[i as int]) == r)
            } by {
                if a < earlier.len() {
                    assert(now[a] == earlier[a]);
                }
            }
            assert forall|a: int, b: int| 0 <= a < b < now.len() implies now[a] < now[b] by {
                if b < earlier.len() {
                    assert(now[a] == earlier[a] && now[b] == earlier[b]);
                } else {
                    assert(now[a] == earlier[a]);
                }
            }
        } else {
            assert(now == earlier);
        }
        assert forall|i: int|
            0 <= i < n && candidate_matches(kind, serial, cands[i]) && (rank matches Some(r) ==> n1_rank(cands[i]) == r)
                implies now.contains(i as usize) by {
            if i < n - 1 {
                let k = choose|k: int| 0 <= k < earlier.len() && earlier[k] == i as usize;
                assert(now[k] == i as usize);
            } else {
                assert(now[now.len() - 1] == i as usize);
            }
        }
    }
}

/// Every matching interface is tried exactly once and nothing else is tried; on the N1 the
/// vendor input interface comes before the vendor output interface, which comes before any
/// other.
pub proof fn lemma_connect_order(kind: Kind, serial: Seq<char>, cands: Seq<HidCandidate>)
    requires
        cands.len() <= usize::MAX,
    ensures
        forall|a: int|
            0 <= a < spec_connect_order(kind, serial, cands).len() ==> {
                let i = #[trigger] spec_connect_order(kind, serial, cands)[a];
                &&& i < cands.len()
                &&& candidate_matches(kind, serial, cands[i as int])
            },
        forall|a: int, b: int|
            0 <= a < b < spec_connect_order(kind, serial, cands).len() ==> spec_connect_order(kind, serial, cands)[a]
                != spec_connect_order(kind, serial, cands)[b],
        forall|i: int|
            0 <= i < cands.len() && candidate_matches(kind, serial, cands[i]) ==> spec_connect_order(
                kind,
                serial,
                cands,
            ).contains(i as usize),
        kind.spec_is_n1() ==> forall|a: int, b: int|
            0 <= a < b < spec_connect_order(kind, serial, cands).len() ==> n1_rank(
                cands[spec_connect_order(kind, serial, cands)[a] as int],
            ) <= n1_rank(cands[spec_connect_order(kind, serial, cands)[b] as int]),
{
    let n = cands.len() as int;
    let order = spec_connect_order(kind, serial, cands);
    lemma_matching_indices(kind, serial, cands, None, n);
    lemma_matching_indices(kind, serial, cands, Some(0u8), n);
    lemma_matching_indices(kind, serial, cands, Some(1u8), n);
    lemma_matching_indices(kind, serial, cands, Some(2u8), n);
    if kind.spec_is_n1() {
        let m0 = matching_indices(kind, serial, cands, Some(0u8), n);
        let m1 = matching_indices(kind, serial, cands, Some(1u8), n);
        let m2 = matching_indices(kind, serial, cands, Some(2u8), n);
        assert(order == m0 + m1 + m2);
        // Position of an element of the concatenation, by segment.
        assert forall|a: int| 0 <= a < order.len() implies {
            let i = #[trigger] order[a];
            &&& i < cands.len()
            &&& candidate_matches(kind, serial, cands[i as int])
            &&& n1_rank(cands[i as int]) == (if a < m0.len() { 0u8 } else if a < m0.len() + m1.len() { 1u8 } else { 2u8 })
        } by {
            if a < m0.len() {
                assert(order[a] == m0[a]);
            } else if a < m0.len() + m1.len() {
                assert(order[a] == m1[a - m0.len()]);
            } else {
                assert(order[a] == m2[a - m0.len() - m1.len()]);
            }
        }
        assert forall|a: int, b: int| 0 <= a < b < order.len() implies order[a] != order[b] by {
            if a < m0.len() && b < m0.len() {
                assert(order[a] == m0[a] && order[b] == m0[b]);
            } else if m0.len() <= a && b < m0.len() + m1.len() {
                assert(order[a] == m1[a - m0.len()] && order[b] == m1[b - m0.len()]);
            } else if m0.len() + m1.len() <= a {
                assert(order[a] == m2[a - m0.len() - m1.len()] && order[b] == m2[b - m0.len() - m1.len()]);
            } else {
                assert(n1_rank(cands[order[a] as int]) != n1_rank(cands[order[b] as int]));
            }
        }
        assert forall|i: int| 0 <= i < cands.len() && candidate_matches(kind, serial, cands[i]) implies order.contains(
            i as usize,
        ) by {
            let r = n1_rank(cands[i]);
            if r == 0 {
                let k = choose|k: int| 0 <= k < m0.len() && m0[k] == i as usize;
                assert(order[k] == i as usize);
            } else if r == 1 {
                let k = choose|k: int| 0 <= k < m1.len() && m1[k] == i as usize;
                assert(order[m0.len() + k] == i as usize);
            } else {
                let k = choose|k: int| 0 <= k < m2.len() && m2[k] == i as usize;
                assert(order[m0.len() + m1.len() + k] == i as usize);
            }
        }
    } else {
        let m = matching_indices(kind, serial, cands, None, n);
        assert(order == m);
    }
}

/// What follows a failed connection attempt: a pause, then either another attempt or giving
/// up with the error of the attempt that just failed.
#[derive(Debug)]
pub enum RetryStep<E> {
    /// Pause, then try again.
    Retry { pause_ms: u64 },
    /// Pause, then report `error`.
    GiveUp { pause_ms: u64, error: E },
}

/// Pause after a failed connection attempt, in milliseconds.
pub open spec fn retry_pause_ms() -> u64 {
    100
}

/// Tracks the attempts at connecting to a device that are still allowed, the current one
/// included.
#[derive(Debug)]
pub struct ConnectRetry {
    remaining: u8,
}

impl ConnectRetry {
    /// Attempts still allowed, the current one included.
    pub closed spec fn spec_remaining(self) -> u8 {
        self.remaining
    }

    /// Starts a sequence of `attempts` tries; no tries at all is refused.
    pub fn start(attempts: u8) -> (r: Result<ConnectRetry, AjazzError>)
        ensures
            attempts == 0 ==> r == Err::<ConnectRetry, AjazzError>(AjazzError::UnsupportedOperation),
            attempts > 0 ==> (r matches Ok(c) && c.spec_remaining() == attempts),
    {
        if attempts == 0 {
            return Err(AjazzError::UnsupportedOperation);
        }
        Ok(ConnectRetry { remaining: attempts })
    }

    /// Decides what follows the failure `error` of the current attempt: always a pause of
    /// 100 ms, then another attempt while any is left, otherwise giving up with `error`.
    pub fn on_failure<E>(&mut self, error: E) -> (r: RetryStep<E>)
        requires
            old(self).spec_remaining() > 0,
        ensures
            final(self).spec_remaining() == old(self).spec_remaining() - 1,
            final(self).spec_remaining() > 0 ==> r == (RetryStep::<E>::Retry { pause_ms: retry_pause_ms() }),
            final(self).spec_remaining() == 0 ==> r == (RetryStep::<E>::GiveUp { pause_ms: retry_pause_ms(), error }),
    {
        self.remaining = self.remaining - 1;
        if self.remaining > 0 {
            RetryStep::Retry { pause_ms: 100 }
        } else {
            RetryStep::GiveUp { pause_ms: 100, error }
        }
    }
}

/// Number of failed attempts after which `on_failure` gives up, starting from `remaining`.
pub open spec fn failures_before_giving_up(remaining: nat) -> nat
    decreases remaining,
{
    if remaining <= 1 {
        1
    } else {
        1 + failures_before_giving_up((remaining - 1) as nat)
    }
}

/// A connection is attempted exactly as many times as asked for before giving up.
pub proof fn lemma_retry_attempts(attempts: nat)
    requires
        attempts > 0,
    ensures
        failures_before_giving_up(attempts) == attempts,
    decreases attempts,
{
    if attempts > 1 {
        lemma_retry_attempts((attempts - 1) as nat);
    }
}

/// How the search through a device's interfaces ends when none could be opened.
#[derive(Debug)]
pub enum SearchEnd<E> {
    /// Report the error of the last interface that failed to open.
    Failed(E),
    /// No interface was found: open the device by its ids and serial number instead.
    OpenBySerial,
}

/// Remembers the failures while the interfaces of a device are tried in order.
#[derive(Debug)]
pub struct InterfaceSearch<E> {
    last_error: Option<E>,
}

impl<E> InterfaceSearch<E> {
    /// The error of the most recent failure, if any.
    pub closed spec fn spec_last_error(self) -> Option<E> {
        self.last_error
    }

    /// A search that has seen no failure.
    pub fn new() -> (r: InterfaceSearch<E>)
        ensures
            r.spec_last_error() is None,
    {
        InterfaceSearch { last_error: None }
    }

    /// Records that an interface failed to open.
    pub fn on_open_failure(&mut self, error: E)
        ensures
            final(self).spec_last_error() == Some(error),
    {
        self.last_error = Some(error);
    }

    /// What to do once every interface has been tried without success: report the last
    /// failure, or, where nothing was tried, open the device by serial number.
    pub fn finish(self) -> (r: SearchEnd<E>)
        ensures
            self.spec_last_error() matches Some(e) ==> r == SearchEnd::<E>::Failed(e),
            self.spec_last_error() is None ==> r == SearchEnd::<E>::OpenBySerial,
    {
        match self.last_error {
            Some(e) => SearchEnd::Failed(e),
            None => SearchEnd::OpenBySerial,
        }
    }
}

/// The text reported where a device gives no string.
pub open spec fn unknown_text() -> Seq<char> {
    "Unknown"@
}

/// The device's string, or `Unknown` where it reports none.
pub fn or_unknown(s: Option<String>) -> (r: String)
    ensures
        s matches Some(v) ==> r@ == v@,
        s is None ==> r@ == unknown_text(),
{
    match s {
        Some(v) => v,
        None => String::from_str("Unknown"),
    }
}

/// The device's serial number, or `Unknown` where it reports none or an empty one.
pub fn serial_or_unknown(s: Option<String>) -> (r: String)
    ensures
        (s matches Some(v) && v@.len() > 0) ==> r@ == s->0@,
        !(s matches Some(v) && v@.len() > 0) ==> r@ == unknown_text(),
{
    match s {
        Some(v) => {
            if v.as_str().is_empty() {
                String::from_str("Unknown")
            } else {
                v
            }
        },
        None => String::from_str("Unknown"),
    }
}

} // verus!
