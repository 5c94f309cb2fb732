//! Device models and the protocol properties that depend on the model.
use vstd::prelude::*;

use crate::bytes::{push_zeros, zeros, zero_pad};

verus! {

/// The supported device models.
#[derive(Clone, Copy, Debug, PartialEq, Eq, Structural, Hash)]
pub enum Kind {
    /// Ajazz AKP153
    Akp153,
    /// Ajazz AKP153E
    Akp153E,
    /// Ajazz AKP153R
    Akp153R,
    /// Ajazz AKP815
    Akp815,
    /// Ajazz AKP03
    Akp03,
    /// Ajazz AKP03E
    Akp03E,
    /// Ajazz AKP03R
    Akp03R,
    /// Ajazz AKP03R, second hardware revision
    Akp03RRev2,
    /// Ajazz N1
    AkpN1,
}

impl Kind {
    /// Models that speak the second ("v2") revision of the protocol.
    pub open spec fn spec_is_v2_api(self) -> bool {
        self is Akp03RRev2
    }

    /// The N1 model.
    pub open spec fn spec_is_n1(self) -> bool {
        self is AkpN1
    }

    /// Models of the AKP153 family, whose keys are numbered in a native order.
    pub open spec fn spec_is_akp153_family(self) -> bool {
        self is Akp153 || self is Akp153E || self is Akp153R
    }

    /// Payload length of an output report: 1024 bytes for v2 models and the N1, 512 otherwise.
    pub open spec fn spec_packet_length(self) -> nat {
        if self.spec_is_v2_api() || self.spec_is_n1() {
            1024
        } else {
            512
        }
    }

    /// Full length of a written report: the payload plus the leading report id byte.
    pub open spec fn spec_report_length(self) -> nat {
        self.spec_packet_length() + 1
    }

    /// Whether the device speaks the v2 protocol.
    pub fn is_v2_api(&self) -> (r: bool)
        ensures
            r == self.spec_is_v2_api(),
    {
        match self {
            Kind::Akp03RRev2 => true,
            _ => false,
        }
    }

    /// Whether the device is an N1.
    pub fn is_n1(&self) -> (r: bool)
        ensures
            r == self.spec_is_n1(),
    {
        match self {
            Kind::AkpN1 => true,
            _ => false,
        }
    }

    /// Whether the device belongs to the AKP153 family.
    pub fn is_akp153_family(&self) -> (r: bool)
        ensures
            r == self.spec_is_akp153_family(),
    {
        match self {
            Kind::Akp153 | Kind::Akp153E | Kind::Akp153R => true,
            _ => false,
        }
    }

    /// Payload length of an output report.
    pub fn packet_length(&self) -> (r: usize)
        ensures
            r == self.spec_packet_length(),
    {
        if self.is_v2_api() || self.is_n1() {
            1024
        } else {
            512
        }
    }

    /// Extends `buf` with zero bytes up to the report length (payload plus report id).
    pub fn pad_packet(&self, buf: &mut Vec<u8>)
        requires
            old(buf)@.len() <= self.spec_report_length(),
        ensures
            final(buf)@ == old(buf)@ + zeros((self.spec_report_length() - old(buf)@.len()) as nat),
            final(buf)@ == zero_pad(old(buf)@, self.spec_report_length()),
            final(buf)@.len() == self.spec_report_length(),
    {
        let length = self.packet_length() + 1;
        let n = length - buf.len();
        push_zeros(buf, n);
        proof {
            if old(buf)@.len() == self.spec_report_length() {
                assert(zeros(0) =~= Seq::<u8>::empty());
                assert(old(buf)@ + zeros(0) =~= old(buf)@);
            }
        }
    }
}

/// Native position of key `key` (in the library's order) on an AKP153-family device.
pub open spec fn akp153_native(key: u8) -> u8 {
    match key {
        0 => 12u8,
        1 => 9,
        2 => 6,
        3 => 3,
        4 => 0,
        5 => 15,
        6 => 13,
        7 => 10,
        8 => 7,
        9 => 4,
        10 => 1,
        11 => 16,
        12 => 14,
        13 => 11,
        14 => 8,
        15 => 5,
        16 => 2,
        _ => 17,
    }
}

/// Key (in the library's order) at native position `native` on an AKP153-family device.
pub open spec fn akp153_key(native: u8) -> u8 {
    match native {
        0 => 4u8,
        1 => 10,
        2 => 16,
        3 => 3,
        4 => 9,
        5 => 15,
        6 => 2,
        7 => 8,
        8 => 14,
        9 => 1,
        10 => 7,
        11 => 13,
        12 => 0,
        13 => 6,
        14 => 12,
        15 => 5,
        16 => 11,
        _ => 17,
    }
}

/// Number of positions that the AKP153-family key order covers.
pub open spec fn akp153_positions() -> u8 {
    18
}

impl Kind {
    /// The native position of `key`, where the model renumbers its keys.
    pub open spec fn spec_index_to_native_v1(self, key: u8) -> Option<u8> {
        if self.spec_is_akp153_family() && key < akp153_positions() {
            Some(akp153_native(key))
        } else {
            None
        }
    }

    /// The key at native position `native`, where the model renumbers its keys.
    pub open spec fn spec_index_from_native_v1(self, native: u8) -> Option<u8> {
        if self.spec_is_akp153_family() && native < akp153_positions() {
            Some(akp153_key(native))
        } else {
            None
        }
    }

    /// Maps a key index to the device's native index.
    pub fn index_to_native_v1(&self, key: u8) -> (r: Option<u8>)
        ensures
            r == self.spec_index_to_native_v1(key),
    {
        if !self.is_akp153_family() || key >= 18 {
            return None;
        }
        let native: u8 = match key {
            0 => 12,
            1 => 9,
            2 => 6,
            3 => 3,
            4 => 0,
            5 => 15,
            6 => 13,
            7 => 10,
            8 => 7,
            9 => 4,
            10 => 1,
            11 => 16,
            12 => 14,
            13 => 11,
            14 => 8,
            15 => 5,
            16 => 2,
            _ => 17,
        };
        Some(native)
    }

    /// Maps a native index back to the library's key index.
    pub fn index_from_native_v1(&self, native: u8) -> (r: Option<u8>)
        ensures
            r == self.spec_index_from_native_v1(native),
    {
        if !self.is_akp153_family() || native >= 18 {
            return None;
        }
        let key: u8 = match native {
            0 => 4,
            1 => 10,
            2 => 16,
            3 => 3,
            4 => 9,
            5 => 15,
            6 => 2,
            7 => 8,
            8 => 14,
            9 => 1,
            10 => 7,
            11 => 13,
            12 => 0,
            13 => 6,
            14 => 12,
            15 => 5,
            16 => 11,
            _ => 17,
        };
        Some(key)
    }
}

/// The two key renumberings are inverse to each other: mapping a key to its native position
/// and back gives the key, and mapping a native position to its key and back gives the position.
pub proof fn lemma_native_index_roundtrip(kind: Kind, i: u8)
    ensures
        kind.spec_index_to_native_v1(i) matches Some(n) ==> kind.spec_index_from_native_v1(n) == Some(i),
        kind.spec_index_from_native_v1(i) matches Some(k) ==> kind.spec_index_to_native_v1(k) == Some(i),
{
}

impl Kind {
    /// Number of buttons whose state input reports carry.
    pub open spec fn spec_key_count(self) -> u8 {
        match self {
            Kind::Akp153 | Kind::Akp153E | Kind::Akp153R => 18,
            Kind::Akp815 => 15,
            Kind::Akp03 | Kind::Akp03E | Kind::Akp03R | Kind::Akp03RRev2 => 9,
            Kind::AkpN1 => 17,
        }
    }

    /// Number of keys that show an image.
    pub open spec fn spec_display_key_count(self) -> u8 {
        match self {
            Kind::Akp153 | Kind::Akp153E | Kind::Akp153R => 18,
            Kind::Akp815 => 15,
            Kind::Akp03 | Kind::Akp03E | Kind::Akp03R | Kind::Akp03RRev2 => 6,
            Kind::AkpN1 => 15,
        }
    }

    /// Number of rotary encoders.
    pub open spec fn spec_encoder_count(self) -> u8 {
        match self {
            Kind::Akp153 | Kind::Akp153E | Kind::Akp153R | Kind::Akp815 => 0,
            Kind::Akp03 | Kind::Akp03E | Kind::Akp03R | Kind::Akp03RRev2 => 3,
            Kind::AkpN1 => 1,
        }
    }

    /// USB vendor id.
    pub open spec fn spec_vendor_id(self) -> u16 {
        match self {
            Kind::Akp153 | Kind::Akp815 => 0x5548,
            _ => 0x0300,
        }
    }

    /// USB product id.
    pub open spec fn spec_product_id(self) -> u16 {
        match self {
            Kind::Akp153 => 0x6674,
            Kind::Akp153E => 0x1010,
            Kind::Akp153R => 0x1020,
            Kind::Akp815 => 0x6672,
            Kind::Akp03 => 0x1001,
            Kind::Akp03E => 0x3002,
            Kind::Akp03R => 0x1003,
            Kind::Akp03RRev2 => 0x3003,
            Kind::AkpN1 => 0x3007,
        }
    }

    /// Number of buttons whose state input reports carry.
    pub fn key_count(&self) -> (r: u8)
        ensures
            r == self.spec_key_count(),
    {
        match self {
            Kind::Akp153 | Kind::Akp153E | Kind::Akp153R => 18,
            Kind::Akp815 => 15,
            Kind::Akp03 | Kind::Akp03E | Kind::Akp03R | Kind::Akp03RRev2 => 9,
            Kind::AkpN1 => 17,
        }
    }

    /// Number of keys that show an image.
    pub fn display_key_count(&self) -> (r: u8)
        ensures
            r == self.spec_display_key_count(),
    {
        match self {
            Kind::Akp153 | Kind::Akp153E | Kind::Akp153R => 18,
            Kind::Akp815 => 15,
            Kind::Akp03 | Kind::Akp03E | Kind::Akp03R | Kind::Akp03RRev2 => 6,
            Kind::AkpN1 => 15,
        }
    }

    /// Number of rotary encoders.
    pub fn encoder_count(&self) -> (r: u8)
        ensures
            r == self.spec_encoder_count(),
    {
        match self {
            Kind::Akp153 | Kind::Akp153E | Kind::Akp153R | Kind::Akp815 => 0,
            Kind::Akp03 | Kind::Akp03E | Kind::Akp03R | Kind::Akp03RRev2 => 3,
            Kind::AkpN1 => 1,
        }
    }

    /// USB vendor id.
    pub fn vendor_id(&self) -> (r: u16)
        ensures
            r == self.spec_vendor_id(),
    {
        match self {
            Kind::Akp153 | Kind::Akp815 => 0x5548,
            _ => 0x0300,
        }
    }

    /// USB product id.
    pub fn product_id(&self) -> (r: u16)
        ensures
            r == self.spec_product_id(),
    {
        match self {
            Kind::Akp153 => 0x6674,
            Kind::Akp153E => 0x1010,
            Kind::Akp153R => 0x1020,
            Kind::Akp815 => 0x6672,
            Kind::Akp03 => 0x1001,
            Kind::Akp03E => 0x3002,
            Kind::Akp03R => 0x1003,
            Kind::Akp03RRev2 => 0x3003,
            Kind::AkpN1 => 0x3007,
        }
    }

    /// The model with the given USB vendor and product ids, if it is a supported one.
    pub fn from_vid_pid(vid: u16, pid: u16) -> (r: Option<Kind>)
        ensures
            r matches Some(k) ==> k.spec_vendor_id() == vid && k.spec_product_id() == pid,
            r is None ==> forall|k: Kind| !(k.spec_vendor_id() == vid && k.spec_product_id() == pid),
    {
        let all: [Kind; 9] = [
            Kind::Akp153,
            Kind::Akp153E,
            Kind::Akp153R,
            Kind::Akp815,
            Kind::Akp03,
            Kind::Akp03E,
            Kind::Akp03R,
            Kind::Akp03RRev2,
            Kind::AkpN1,
        ];
        let mut i: usize = 0;
        while i < 9
            invariant
                i <= 9,
                all@ == seq![
                    Kind::Akp153,
                    Kind::Akp153E,
                    Kind::Akp153R,
                    Kind::Akp815,
                    Kind::Akp03,
                    Kind::Akp03E,
                    Kind::Akp03R,
                    Kind::Akp03RRev2,
                    Kind::AkpN1,
                ],
                forall|j: int| 0 <= j < i ==> !(all@[j].spec_vendor_id() == vid && #[trigger] all@[j].spec_product_id() == pid),
            decreases 9 - i,
        {
            let k = all[i];
            if k.vendor_id() == vid && k.product_id() == pid {
                return Some(k);
            }
            i = i + 1;
        }
        proof {
            assert forall|k: Kind| !(k.spec_vendor_id() == vid && k.spec_product_id() == pid) by {
                let j: int = match k {
                    Kind::Akp153 => 0,
                    Kind::Akp153E => 1,
                    Kind::Akp153R => 2,
                    Kind::Akp815 => 3,
                    Kind::Akp03 => 4,
                    Kind::Akp03E => 5,
                    Kind::Akp03R => 6,
                    Kind::Akp03RRev2 => 7,
                    Kind::AkpN1 => 8,
                };
                assert(all@[j] == k);
            }
        }
        None
    }
}

/// The name under which a model is listed.
pub open spec fn spec_kind_name(kind: Kind) -> Seq<char> {
    match kind {
        Kind::Akp153 => "AKP153"@,
        Kind::Akp153E => "AKP153E"@,
        Kind::Akp153R => "AKP153R"@,
        Kind::Akp815 => "AKP815"@,
        Kind::Akp03 => "AKP03"@,
        Kind::Akp03E => "AKP03E"@,
        Kind::Akp03R => "AKP03R"@,
        Kind::Akp03RRev2 => "AKP03RV2"@,
        Kind::AkpN1 => "N1"@,
    }
}

/// The name under which a model is listed.
pub fn kind_name(kind: Kind) -> (r: &'static str)
    ensures
        r@ == spec_kind_name(kind),
{
    match kind {
        Kind::Akp153 => "AKP153",
        Kind::Akp153E => "AKP153E",
        Kind::Akp153R => "AKP153R",
        Kind::Akp815 => "AKP815",
        Kind::Akp03 => "AKP03",
        Kind::Akp03E => "AKP03E",
        Kind::Akp03R => "AKP03R",
        Kind::Akp03RRev2 => "AKP03RV2",
        Kind::AkpN1 => "N1",
    }
}

/// Every key that shows an image is one of the positions the key renumbering covers, so its
/// native index fits in a one-based announce byte.
pub proof fn lemma_display_keys_announceable(kind: Kind, key: u8)
    requires
        key < kind.spec_display_key_count(),
    ensures
        (match kind.spec_index_to_native_v1(key) {
            Some(n) => n,
            None => key,
        }) < 0xff,
{
}

/// Each supported model has its own pair of USB ids, so the ids tell the model: two models with
/// the same vendor and product ids are the same model. Every key that shows an image is also
/// a button whose state input reports carry.
pub proof fn lemma_ids_identify_model(a: Kind, b: Kind)
    ensures
        a.spec_vendor_id() == b.spec_vendor_id() && a.spec_product_id() == b.spec_product_id() ==> a == b,
        a.spec_display_key_count() <= a.spec_key_count(),
{
}

} // verus!
