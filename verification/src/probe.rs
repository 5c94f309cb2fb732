//! Fixed 513-byte command reports used to probe a device interface by interface.
use vstd::prelude::*;

use crate::bytes::zeros;
use crate::kind::Kind;
use crate::request::{
    cmd_clear_button_image, cmd_dis, cmd_flush, cmd_lig, cmd_logo_image_v1, cmd_shutdown,
    spec_format_request,
};

verus! {

/// Length of a probe report: report id plus 512 payload bytes.
pub open spec fn probe_length() -> nat {
    513
}

/// `packet` cut or zero-extended to exactly 513 bytes.
pub open spec fn spec_probe_pad(packet: Seq<u8>) -> Seq<u8> {
    if packet.len() >= probe_length() {
        packet.take(probe_length() as int)
    } else {
        packet + zeros((probe_length() - packet.len()) as nat)
    }
}

/// Cuts or zero-extends `packet` to exactly 513 bytes.
pub fn pad_packet(mut packet: Vec<u8>) -> (r: Vec<u8>)
    ensures
        r@ == spec_probe_pad(packet@),
{
    if packet.len() >= 513 {
        packet.truncate(513);
        return packet;
    }
    let n = 513 - packet.len();
    crate::bytes::push_zeros(&mut packet, n);
    packet
}

fn probe_request<const N: usize>(cmd: [u8; N]) -> (r: Vec<u8>)
    requires
        N <= 507,
    ensures
        r@ == spec_probe_pad(spec_format_request(cmd@)),
{
    let buf = crate::request::format_request(&cmd);
    pad_packet(buf)
}

/// `DIS`.
pub fn initialize_packet() -> (r: Vec<u8>)
    ensures
        r@ == spec_probe_pad(spec_format_request(cmd_dis())),
{
    let cmd: [u8; 3] = [0x44, 0x49, 0x53];
    proof {
        assert(cmd@ =~= cmd_dis());
    }
    probe_request(cmd)
}

/// `LIG` with the given percentage.
pub fn brightness_packet(percent: u8) -> (r: Vec<u8>)
    ensures
        r@ == spec_probe_pad(spec_format_request(cmd_lig().push(percent))),
{
    let cmd: [u8; 6] = [0x4c, 0x49, 0x47, 0x00, 0x00, percent];
    proof {
        assert(cmd@ =~= cmd_lig().push(percent));
    }
    probe_request(cmd)
}

/// `CLE` for every key.
pub fn clear_all_packet() -> (r: Vec<u8>)
    ensures
        r@ == spec_probe_pad(spec_format_request(cmd_clear_button_image().push(0xff))),
{
    let cmd: [u8; 7] = [0x43, 0x4c, 0x45, 0x00, 0x00, 0x00, 0xff];
    proof {
        assert(cmd@ =~= cmd_clear_button_image().push(0xff));
    }
    probe_request(cmd)
}

/// `STP`.
pub fn flush_packet() -> (r: Vec<u8>)
    ensures
        r@ == spec_probe_pad(spec_format_request(cmd_flush())),
{
    let cmd: [u8; 3] = [0x53, 0x54, 0x50];
    proof {
        assert(cmd@ =~= cmd_flush());
    }
    probe_request(cmd)
}

/// `LOG` announcing a v1 boot logo.
pub fn logo_packet_v1() -> (r: Vec<u8>)
    ensures
        r@ == spec_probe_pad(spec_format_request(cmd_logo_image_v1())),
{
    let cmd: [u8; 8] = [0x4c, 0x4f, 0x47, 0x00, 0x12, 0xc3, 0xc0, 0x01];
    proof {
        assert(cmd@ =~= cmd_logo_image_v1());
    }
    probe_request(cmd)
}

/// `CLE\0\0DC`, which shows the boot logo.
pub fn show_logo_packet() -> (r: Vec<u8>)
    ensures
        r@ == spec_probe_pad(spec_format_request(cmd_shutdown())),
{
    let cmd: [u8; 7] = [0x43, 0x4c, 0x45, 0x00, 0x00, 0x44, 0x43];
    proof {
        assert(cmd@ =~= cmd_shutdown());
    }
    probe_request(cmd)
}

/// On a model with 512-byte reports, the probe reports are byte for byte the library's own
/// packets: session start, brightness, clear all, commit, logo announcement and shutdown.
pub proof fn lemma_probe_packets_match(kind: Kind, percent: u8)
    requires
        kind.spec_packet_length() == 512,
    ensures
        spec_probe_pad(spec_format_request(cmd_dis())) == kind.spec_initialize_packet(),
        spec_probe_pad(spec_format_request(cmd_lig().push(percent))) == kind.spec_brightness_packet(percent),
        spec_probe_pad(spec_format_request(cmd_clear_button_image().push(0xff))) == kind.spec_clear_button_image_packet(
            0xff,
        ),
        spec_probe_pad(spec_format_request(cmd_flush())) == kind.spec_flush_packet(),
        spec_probe_pad(spec_format_request(cmd_logo_image_v1())) == kind.spec_logo_image_packet(0),
        spec_probe_pad(spec_format_request(cmd_shutdown())) == kind.spec_shutdown_packet(),
{
    assert(spec_format_request(cmd_lig()).push(percent) =~= spec_format_request(cmd_lig().push(percent)));
    assert(spec_format_request(cmd_clear_button_image()).push(0xff) =~= spec_format_request(
        cmd_clear_button_image().push(0xff),
    ));
}

} // verus!
