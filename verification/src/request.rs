//! Command packets: a six-byte `CRT` header, a command, then zero padding up to one report.
use vstd::prelude::*;

use crate::bytes::{push_all, zero_pad, zeros};
use crate::kind::Kind;

verus! {

/// Report id 0 followed by `CRT\0\0`: the start of every command.
pub open spec fn request_header() -> Seq<u8> {
    seq![0x00u8, 0x43, 0x52, 0x54, 0x00, 0x00]
}

/// `CONNECT`: keeps the device awake.
pub open spec fn cmd_keep_alive() -> Seq<u8> {
    seq![0x43u8, 0x4f, 0x4e, 0x4e, 0x45, 0x43, 0x54]
}

/// `DIS`: wakes the display and starts a session.
pub open spec fn cmd_dis() -> Seq<u8> {
    seq![0x44u8, 0x49, 0x53]
}

/// `LIG\0\0`: sets the backlight; followed by the percentage.
pub open spec fn cmd_lig() -> Seq<u8> {
    seq![0x4cu8, 0x49, 0x47, 0x00, 0x00]
}

/// `HAN`: puts the device to sleep.
pub open spec fn cmd_sleep() -> Seq<u8> {
    seq![0x48u8, 0x41, 0x4e]
}

/// `CLE\0\0DC`: clears the screen and shuts the display down.
pub open spec fn cmd_shutdown() -> Seq<u8> {
    seq![0x43u8, 0x4c, 0x45, 0x00, 0x00, 0x44, 0x43]
}

/// `CLE\0\0\0`: clears one key; followed by the one-based native key index (0xff for all).
pub open spec fn cmd_clear_button_image() -> Seq<u8> {
    seq![0x43u8, 0x4c, 0x45, 0x00, 0x00, 0x00]
}

/// `STP`: commits the images sent so far.
pub open spec fn cmd_flush() -> Seq<u8> {
    seq![0x53u8, 0x54, 0x50]
}

/// `BAT\0\0`: announces an image; followed by its big-endian 16-bit size and the key index.
pub open spec fn cmd_image_announce() -> Seq<u8> {
    seq![0x42u8, 0x41, 0x54, 0x00, 0x00]
}

/// `MOD\0\0` with mode 0x33: switches the N1 from keyboard mode to software mode.
pub open spec fn cmd_n1_software_mode() -> Seq<u8> {
    seq![0x4du8, 0x4f, 0x44, 0x00, 0x00, 0x33]
}

/// `LOG` announcing a boot logo of the fixed v1 size.
pub open spec fn cmd_logo_image_v1() -> Seq<u8> {
    seq![0x4cu8, 0x4f, 0x47, 0x00, 0x12, 0xc3, 0xc0, 0x01]
}

/// `LOG\0\0` announcing a v2 boot logo; followed by its big-endian 16-bit size.
pub open spec fn cmd_logo_image_v2() -> Seq<u8> {
    seq![0x4cu8, 0x4f, 0x47, 0x00, 0x00]
}

/// The key value that asks `CLE` to clear every key.
pub open spec fn spec_clear_all_key() -> u8 {
    0xff
}

/// The key value that asks `CLE` to clear every key.
pub const CMD_CLEAR_ALL: u8 = 0xff;

/// Report id of the firmware version feature report.
pub const FEATURE_REPORT_ID_VERSION: u8 = 0x01;

/// A command prefixed with the request header.
pub open spec fn spec_format_request(cmd: Seq<u8>) -> Seq<u8> {
    request_header() + cmd
}

/// High byte of the low 16 bits of `n`.
pub open spec fn size_hi(n: nat) -> u8 {
    ((n / 256) % 256) as u8
}

/// Low byte of `n`.
pub open spec fn size_lo(n: nat) -> u8 {
    (n % 256) as u8
}

/// `(n >> 8) as u8` and `n as u8` are the two low bytes of `n`.
pub proof fn lemma_usize_low_bytes(n: usize)
    ensures
        (n >> 8usize) as u8 == size_hi(n as nat),
        n as u8 == size_lo(n as nat),
{
    assert((n >> 8usize) as u8 == ((n / 256) % 256) as u8) by (bit_vector);
    assert(n as u8 == (n % 256) as u8) by (bit_vector);
}

/// Sizes up to 0xffff survive the two-byte big-endian size field.
pub proof fn lemma_size_bytes_roundtrip(n: nat)
    requires
        n <= 0xffff,
    ensures
        size_hi(n) as nat * 256 + size_lo(n) as nat == n,
{
    assert((n / 256) % 256 == n / 256);
}

/// Prefixes `cmd` with the request header.
pub fn format_request(cmd: &[u8]) -> (r: Vec<u8>)
    ensures
        r@ == spec_format_request(cmd@),
{
    let header: [u8; 6] = [0x00, 0x43, 0x52, 0x54, 0x00, 0x00];
    let mut buf: Vec<u8> = Vec::new();
    push_all(&mut buf, &header);
    push_all(&mut buf, cmd);
    proof {
        assert(header@ =~= request_header());
        assert(buf@ =~= request_header() + cmd@);
    }
    buf
}

/// The feature report buffer used to read the firmware version: report id, then 20 zero bytes.
pub fn feature_report_version() -> (r: Vec<u8>)
    ensures
        r@ == seq![0x01u8] + zeros(20),
{
    let mut buf: Vec<u8> = Vec::new();
    buf.push(FEATURE_REPORT_ID_VERSION);
    crate::bytes::push_zeros(&mut buf, 20);
    proof {
        assert(seq![0x01u8] =~= Seq::<u8>::empty().push(0x01u8));
    }
    buf
}

impl Kind {
    /// `s` padded with zero bytes up to one output report of this model.
    pub open spec fn spec_padded(self, s: Seq<u8>) -> Seq<u8> {
        zero_pad(s, self.spec_report_length())
    }

    /// The key byte that a clear command carries for `key`: its native position plus one,
    /// or 0xff (all keys) unchanged.
    pub open spec fn spec_clear_target(self, key: u8) -> u8 {
        let k = match self.spec_index_from_native_v1(key) {
            Some(n) => n,
            None => key,
        };
        if k == 0xff {
            0xff
        } else {
            (k + 1) as u8
        }
    }

    /// The native index of `key`, or `key` itself where the model does not renumber it.
    pub open spec fn spec_native_or_key(self, key: u8) -> u8 {
        match self.spec_index_to_native_v1(key) {
            Some(n) => n,
            None => key,
        }
    }

    pub open spec fn spec_brightness_packet(self, percent: u8) -> Seq<u8> {
        self.spec_padded(spec_format_request(cmd_lig()).push(percent))
    }

    pub open spec fn spec_keep_alive_packet(self) -> Seq<u8> {
        self.spec_padded(spec_format_request(cmd_keep_alive()))
    }

    pub open spec fn spec_initialize_packet(self) -> Seq<u8> {
        self.spec_padded(spec_format_request(cmd_dis()))
    }

    pub open spec fn spec_sleep_packet(self) -> Seq<u8> {
        self.spec_padded(spec_format_request(cmd_sleep()))
    }

    pub open spec fn spec_shutdown_packet(self) -> Seq<u8> {
        self.spec_padded(spec_format_request(cmd_shutdown()))
    }

    pub open spec fn spec_flush_packet(self) -> Seq<u8> {
        self.spec_padded(spec_format_request(cmd_flush()))
    }

    pub open spec fn spec_n1_software_mode_packet(self) -> Seq<u8> {
        self.spec_padded(spec_format_request(cmd_n1_software_mode()))
    }

    pub open spec fn spec_clear_button_image_packet(self, key: u8) -> Seq<u8> {
        self.spec_padded(spec_format_request(cmd_clear_button_image()).push(self.spec_clear_target(key)))
    }

    pub open spec fn spec_image_announce_packet(self, index: u8, size: nat) -> Seq<u8> {
        self.spec_padded(
            spec_format_request(cmd_image_announce()) + seq![size_hi(size), size_lo(size), index],
        )
    }

    pub open spec fn spec_key_image_announce_packet(self, key: u8, size: nat) -> Seq<u8> {
        self.spec_image_announce_packet((self.spec_native_or_key(key) + 1) as u8, size)
    }

    pub open spec fn spec_logo_image_packet(self, size: nat) -> Seq<u8> {
        if self.spec_is_v2_api() {
            self.spec_padded(spec_format_request(cmd_logo_image_v2()) + seq![size_hi(size), size_lo(size)])
        } else {
            self.spec_padded(spec_format_request(cmd_logo_image_v1()))
        }
    }

    /// Pads a request that fits in one report.
    fn padded_request(&self, mut buf: Vec<u8>) -> (r: Vec<u8>)
        requires
            buf@.len() <= self.spec_report_length(),
        ensures
            r@ == self.spec_padded(buf@),
            r@.len() == self.spec_report_length(),
    {
        self.pad_packet(&mut buf);
        buf
    }

    /// Sets the backlight to `percent`.
    pub fn brightness_packet(&self, percent: u8) -> (r: Vec<u8>)
        ensures
            r@ == self.spec_brightness_packet(percent),
    {
        let cmd: [u8; 5] = [0x4c, 0x49, 0x47, 0x00, 0x00];
        let mut buf = format_request(&cmd);
        buf.push(percent);
        proof {
            assert(cmd@ =~= cmd_lig());
        }
        self.padded_request(buf)
    }

    /// Keeps the device awake.
    pub fn keep_alive_packet(&self) -> (r: Vec<u8>)
        ensures
            r@ == self.spec_keep_alive_packet(),
    {
        let cmd: [u8; 7] = [0x43, 0x4f, 0x4e, 0x4e, 0x45, 0x43, 0x54];
        proof {
            assert(cmd@ =~= cmd_keep_alive());
        }
        self.padded_request(format_request(&cmd))
    }

    /// Starts a session with the device.
    pub fn initialize_packet(&self) -> (r: Vec<u8>)
        ensures
            r@ == self.spec_initialize_packet(),
    {
        let cmd: [u8; 3] = [0x44, 0x49, 0x53];
        proof {
            assert(cmd@ =~= cmd_dis());
        }
        self.padded_request(format_request(&cmd))
    }

    /// Puts the device to sleep.
    pub fn sleep_packet(&self) -> (r: Vec<u8>)
        ensures
            r@ == self.spec_sleep_packet(),
    {
        let cmd: [u8; 3] = [0x48, 0x41, 0x4e];
        proof {
            assert(cmd@ =~= cmd_sleep());
        }
        self.padded_request(format_request(&cmd))
    }

    /// Clears the screen before shutting down.
    pub fn shutdown_packet(&self) -> (r: Vec<u8>)
        ensures
            r@ == self.spec_shutdown_packet(),
    {
        let cmd: [u8; 7] = [0x43, 0x4c, 0x45, 0x00, 0x00, 0x44, 0x43];
        proof {
            assert(cmd@ =~= cmd_shutdown());
        }
        self.padded_request(format_request(&cmd))
    }

    /// Clears the image of `key` (given in native numbering), or of every key for 0xff.
    pub fn clear_button_image_packet(&self, key: u8) -> (r: Vec<u8>)
        ensures
            r@ == self.spec_clear_button_image_packet(key),
    {
        let key = match self.index_from_native_v1(key) {
            Some(k) => k,
            None => key,
        };
        let key = if key == 0xff {
            0xff
        } else {
            key + 1
        };
        let cmd: [u8; 6] = [0x43, 0x4c, 0x45, 0x00, 0x00, 0x00];
        let mut buf = format_request(&cmd);
        buf.push(key);
        proof {
            assert(cmd@ =~= cmd_clear_button_image());
        }
        self.padded_request(buf)
    }

    /// Commits the images sent so far.
    pub fn flush_packet(&self) -> (r: Vec<u8>)
        ensures
            r@ == self.spec_flush_packet(),
    {
        let cmd: [u8; 3] = [0x53, 0x54, 0x50];
        proof {
            assert(cmd@ =~= cmd_flush());
        }
        self.padded_request(format_request(&cmd))
    }

    /// Switches an N1 into software mode.
    pub fn n1_software_mode_packet(&self) -> (r: Vec<u8>)
        ensures
            r@ == self.spec_n1_software_mode_packet(),
    {
        let cmd: [u8; 6] = [0x4d, 0x4f, 0x44, 0x00, 0x00, 0x33];
        proof {
            assert(cmd@ =~= cmd_n1_software_mode());
        }
        self.padded_request(format_request(&cmd))
    }

    /// Announces an image of `image_data.len()` bytes for device position `index`.
    pub fn image_announce_packet(&self, index: u8, image_data: &[u8]) -> (r: Vec<u8>)
        ensures
            r@ == self.spec_image_announce_packet(index, image_data@.len()),
    {
        let len = image_data.len();
        let cmd: [u8; 5] = [0x42, 0x41, 0x54, 0x00, 0x00];
        let mut buf = format_request(&cmd);
        buf.push((len >> 8) as u8);
        buf.push(len as u8);
        buf.push(index);
        proof {
            lemma_usize_low_bytes(len);
            assert(cmd@ =~= cmd_image_announce());
            assert(buf@ =~= spec_format_request(cmd_image_announce()) + seq![
                size_hi(len as nat),
                size_lo(len as nat),
                index,
            ]);
        }
        self.padded_request(buf)
    }

    /// Announces an image for `key`, addressed by its one-based native position.
    pub fn key_image_announce_packet(&self, key: u8, image_data: &[u8]) -> (r: Vec<u8>)
        requires
            self.spec_native_or_key(key) < 0xff,
        ensures
            r@ == self.spec_key_image_announce_packet(key, image_data@.len()),
    {
        let index = match self.index_to_native_v1(key) {
            Some(n) => n,
            None => key,
        };
        self.image_announce_packet(index + 1, image_data)
    }

    /// Announces a boot logo of `image_data.len()` bytes.
    pub fn logo_image_packet(&self, image_data: &[u8]) -> (r: Vec<u8>)
        ensures
            r@ == self.spec_logo_image_packet(image_data@.len()),
    {
        let buf = if self.is_v2_api() {
            let len = image_data.len();
            let cmd: [u8; 5] = [0x4c, 0x4f, 0x47, 0x00, 0x00];
            let mut buf = format_request(&cmd);
            buf.push((len >> 8) as u8);
            buf.push(len as u8);
            proof {
                lemma_usize_low_bytes(len);
                assert(cmd@ =~= cmd_logo_image_v2());
                assert(buf@ =~= spec_format_request(cmd_logo_image_v2()) + seq![
                    size_hi(len as nat),
                    size_lo(len as nat),
                ]);
            }
            buf
        } else {
            let cmd: [u8; 8] = [0x4c, 0x4f, 0x47, 0x00, 0x12, 0xc3, 0xc0, 0x01];
            proof {
                assert(cmd@ =~= cmd_logo_image_v1());
            }
            format_request(&cmd)
        };
        self.padded_request(buf)
    }
}

/// Every command packet is exactly one report long, starts with the request header, carries
/// the command bytes right after it and is zero from there to the end.
pub proof fn lemma_request_layout(kind: Kind, cmd: Seq<u8>)
    requires
        request_header().len() + cmd.len() <= kind.spec_report_length(),
    ensures
        kind.spec_padded(spec_format_request(cmd)).len() == kind.spec_report_length(),
        kind.spec_padded(spec_format_request(cmd)).subrange(0, 6) == request_header(),
        kind.spec_padded(spec_format_request(cmd)).subrange(6, 6 + cmd.len() as int) == cmd,
        forall|i: int|
            6 + cmd.len() <= i < kind.spec_report_length() ==> #[trigger] kind.spec_padded(
                spec_format_request(cmd),
            )[i] == 0u8,
{
    let p = kind.spec_padded(spec_format_request(cmd));
    assert(p.subrange(0, 6) =~= request_header());
    assert(p.subrange(6, 6 + cmd.len() as int) =~= cmd);
}

/// The brightness packet of every model is one report long and carries, right after the header
/// and `LIG\0\0`, the requested percentage at offset 11; everything after it is zero.
pub proof fn lemma_brightness_packet_layout(kind: Kind, percent: u8)
    ensures
        kind.spec_brightness_packet(percent).len() == kind.spec_report_length(),
        kind.spec_brightness_packet(percent).subrange(0, 6) == request_header(),
        kind.spec_brightness_packet(percent).subrange(6, 11) == seq![0x4cu8, 0x49, 0x47, 0x00, 0x00],
        kind.spec_brightness_packet(percent)[11] == percent,
        forall|i: int| 12 <= i < kind.spec_report_length() ==> #[trigger] kind.spec_brightness_packet(percent)[i] == 0u8,
{
    let p = kind.spec_brightness_packet(percent);
    assert(p.subrange(0, 6) =~= request_header());
    assert(p.subrange(6, 11) =~= seq![0x4cu8, 0x49, 0x47, 0x00, 0x00]);
}

/// The clear packet of every model is one report long, holds the header and `CLE\0\0\0`, then
/// at offset 12 the key byte: 0xff (all keys) for 0xff; the key plus one for models that do not
/// renumber their keys and for keys beyond the renumbered ones; and on the AKP153 family, for
/// a native position, the one-based key whose native position it is. Everything after is zero.
pub proof fn lemma_clear_packet_key_byte(kind: Kind, key: u8)
    ensures
        kind.spec_clear_button_image_packet(key).len() == kind.spec_report_length(),
        kind.spec_clear_button_image_packet(key).subrange(0, 12) == request_header() + seq![
            0x43u8,
            0x4c,
            0x45,
            0x00,
            0x00,
            0x00,
        ],
        key == 0xff ==> kind.spec_clear_button_image_packet(key)[12] == 0xffu8,
        key != 0xff && !kind.spec_is_akp153_family() ==> kind.spec_clear_button_image_packet(key)[12] == key + 1,
        key != 0xff && key >= 18 ==> kind.spec_clear_button_image_packet(key)[12] == key + 1,
        kind.spec_is_akp153_family() && key < 18 ==> {
            &&& 1 <= kind.spec_clear_button_image_packet(key)[12] <= 18
            &&& kind.spec_index_to_native_v1((kind.spec_clear_button_image_packet(key)[12] - 1) as u8) == Some(key)
        },
        forall|i: int| 13 <= i < kind.spec_report_length() ==> #[trigger] kind.spec_clear_button_image_packet(key)[i] == 0u8,
{
    let p = kind.spec_clear_button_image_packet(key);
    assert(p.subrange(0, 12) =~= request_header() + seq![0x43u8, 0x4c, 0x45, 0x00, 0x00, 0x00]);
    crate::kind::lemma_native_index_roundtrip(kind, key);
}

/// The command packets do not depend on the model except in their length: every model sends
/// the bytes of a 512-byte model, followed by zeros up to its own report length.
pub proof fn lemma_packets_model_independent(kind: Kind, percent: u8, key: u8, index: u8, size: nat)
    ensures
        kind.spec_keep_alive_packet() == Kind::Akp815.spec_keep_alive_packet() + zeros(
            (kind.spec_report_length() - 513) as nat,
        ),
        kind.spec_initialize_packet() == Kind::Akp815.spec_initialize_packet() + zeros(
            (kind.spec_report_length() - 513) as nat,
        ),
        kind.spec_sleep_packet() == Kind::Akp815.spec_sleep_packet() + zeros((kind.spec_report_length() - 513) as nat),
        kind.spec_shutdown_packet() == Kind::Akp815.spec_shutdown_packet() + zeros(
            (kind.spec_report_length() - 513) as nat,
        ),
        kind.spec_flush_packet() == Kind::Akp815.spec_flush_packet() + zeros((kind.spec_report_length() - 513) as nat),
        kind.spec_n1_software_mode_packet() == Kind::Akp815.spec_n1_software_mode_packet() + zeros(
            (kind.spec_report_length() - 513) as nat,
        ),
        kind.spec_brightness_packet(percent) == Kind::Akp815.spec_brightness_packet(percent) + zeros(
            (kind.spec_report_length() - 513) as nat,
        ),
        kind.spec_image_announce_packet(index, size) == Kind::Akp815.spec_image_announce_packet(index, size) + zeros(
            (kind.spec_report_length() - 513) as nat,
        ),
        !kind.spec_is_akp153_family() ==> kind.spec_clear_button_image_packet(key)
            == Kind::Akp815.spec_clear_button_image_packet(key) + zeros((kind.spec_report_length() - 513) as nat),
{
    let extra = (kind.spec_report_length() - 513) as nat;
    assert(kind.spec_report_length() >= 513);
    assert forall|s: Seq<u8>| s.len() <= 513 implies #[trigger] kind.spec_padded(s) == Kind::Akp815.spec_padded(s)
        + zeros(extra) by {
        assert(kind.spec_padded(s) =~= Kind::Akp815.spec_padded(s) + zeros(extra));
    }
}

/// The image announce packet carries, after `BAT\0\0`, the image size as a big-endian 16-bit
/// value (the size modulo 65536) and then the index; keys are announced by their one-based
/// position, which on models without renumbering is the key plus one.
pub proof fn lemma_announce_packet_layout(kind: Kind, index: u8, key: u8, size: nat)
    ensures
        kind.spec_image_announce_packet(index, size).len() == kind.spec_report_length(),
        kind.spec_image_announce_packet(index, size).subrange(6, 11) == seq![0x42u8, 0x41, 0x54, 0x00, 0x00],
        kind.spec_image_announce_packet(index, size)[11] as nat * 256 + kind.spec_image_announce_packet(index, size)[12]
            as nat == size % 65536,
        kind.spec_image_announce_packet(index, size)[13] == index,
        key < 0xff && !kind.spec_is_akp153_family() ==> kind.spec_key_image_announce_packet(key, size)[13] == key + 1,
        key < 18 && kind.spec_is_akp153_family() ==> kind.spec_index_from_native_v1(
            (kind.spec_key_image_announce_packet(key, size)[13] - 1) as u8,
        ) == Some(key),
{
    let p = kind.spec_image_announce_packet(index, size);
    assert(p.subrange(6, 11) =~= seq![0x42u8, 0x41, 0x54, 0x00, 0x00]);
    let s = size as int;
    assert(((s / 256) % 256) * 256 + s % 256 == s % 65536) by (nonlinear_arith)
        requires
            s >= 0,
    ;
    crate::kind::lemma_native_index_roundtrip(kind, key);
}

/// The boot logo packet is one report long and starts with the header and `LOG`. On v2
/// models `LOG\0\0` is followed by the logo's size as a big-endian 16-bit value (the size
/// modulo 65536); other models announce the fixed v1 logo size whatever data is given, so
/// their packet does not depend on it. Everything after the command is zero.
pub proof fn lemma_logo_packet_layout(kind: Kind, size: nat, other_size: nat)
    ensures
        kind.spec_logo_image_packet(size).len() == kind.spec_report_length(),
        kind.spec_logo_image_packet(size).subrange(0, 6) == request_header(),
        kind.spec_logo_image_packet(size).subrange(6, 9) == seq![0x4cu8, 0x4f, 0x47],
        kind.spec_is_v2_api() ==> {
            &&& kind.spec_logo_image_packet(size).subrange(9, 11) == seq![0x00u8, 0x00]
            &&& kind.spec_logo_image_packet(size)[11] as nat * 256 + kind.spec_logo_image_packet(size)[12] as nat
                == size % 65536
            &&& forall|i: int| 13 <= i < kind.spec_report_length() ==> #[trigger] kind.spec_logo_image_packet(size)[i]
                == 0u8
        },
        !kind.spec_is_v2_api() ==> {
            &&& kind.spec_logo_image_packet(size) == kind.spec_logo_image_packet(other_size)
            &&& kind.spec_logo_image_packet(size).subrange(9, 14) == seq![0x00u8, 0x12, 0xc3, 0xc0, 0x01]
            &&& forall|i: int| 14 <= i < kind.spec_report_length() ==> #[trigger] kind.spec_logo_image_packet(size)[i]
                == 0u8
        },
{
    let p = kind.spec_logo_image_packet(size);
    assert(p.subrange(0, 6) =~= request_header());
    assert(p.subrange(6, 9) =~= seq![0x4cu8, 0x4f, 0x47]);
    if kind.spec_is_v2_api() {
        assert(p.subrange(9, 11) =~= seq![0x00u8, 0x00]);
        let s = size as int;
        assert(((s / 256) % 256) * 256 + s % 256 == s % 65536) by (nonlinear_arith)
            requires
                s >= 0,
        ;
    } else {
        assert(p.subrange(9, 14) =~= seq![0x00u8, 0x12, 0xc3, 0xc0, 0x01]);
    }
}

} // verus!
