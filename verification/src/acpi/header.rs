//! The common 36-byte header of the ACPI system description tables, and the
//! step that puts a header in front of a body and fills in the checksum.
use vstd::prelude::*;
use crate::acpi::bytes::{le32, push_bytes};
use crate::acpi::config::PlatformConfig;
use crate::acpi::checksum::{acpi_checksum, byte_sum, checksum_of, lemma_checksum_zeroes_sum};

verus! {

/// Length of the common table header in bytes.
pub const ACPI_HEADER_LEN: usize = 36;

/// The fields of the common table header that the caller chooses.
#[derive(Debug, Clone, Copy)]
pub struct AcpiHeader {
    pub signature: [u8; 4],
    pub revision: u8,
    pub oem_id: [u8; 6],
    pub oem_table_id: [u8; 8],
    pub oem_revision: u32,
    pub creator_id: [u8; 4],
    pub creator_revision: u32,
}

/// The header that every table of this platform gets, for the given
/// signature and revision.
pub open spec fn platform_header(config: PlatformConfig, signature: [u8; 4], revision: u8) -> AcpiHeader {
    AcpiHeader {
        signature,
        revision,
        oem_id: config.oem_id,
        oem_table_id: config.oem_table_id,
        oem_revision: config.oem_revision,
        creator_id: config.creator_id,
        creator_revision: config.creator_revision,
    }
}

/// The header bytes for a table of `total_len` bytes, with a zero checksum
/// byte at offset 9.
pub open spec fn header_bytes(h: AcpiHeader, total_len: u32) -> Seq<u8> {
    h.signature@ + le32(total_len) + seq![h.revision, 0u8] + h.oem_id@ + h.oem_table_id@ + le32(
        h.oem_revision,
    ) + h.creator_id@ + le32(h.creator_revision)
}

/// The value of the 32-bit length field of a table with a body of
/// `body_len` bytes (the length wraps at 2^32).
pub open spec fn table_len(body_len: nat) -> u32 {
    ((36 + body_len) % 0x1_0000_0000) as u32
}

/// Header and body, before the checksum is filled in.
pub open spec fn raw_table(h: AcpiHeader, body: Seq<u8>) -> Seq<u8> {
    header_bytes(h, table_len(body.len())) + body
}

/// The complete table: header, body, and the checksum at offset 9.
pub open spec fn finalized_table(h: AcpiHeader, body: Seq<u8>) -> Seq<u8> {
    raw_table(h, body).update(9, checksum_of(raw_table(h, body)))
}

/// The little-endian bytes of a 32-bit value as an array.
fn u32_le_array(v: u32) -> (out: [u8; 4])
    ensures
        out@ == le32(v),
{
    let out = [
        (v % 256) as u8,
        ((v / 0x100) % 256) as u8,
        ((v / 0x1_0000) % 256) as u8,
        (v / 0x100_0000) as u8,
    ];
    assert(out@ =~= le32(v));
    out
}

impl AcpiHeader {
    /// Encodes the header of a table that is `total_len` bytes long. The
    /// checksum byte is left zero.
    pub fn encode(&self, total_len: u32) -> (out: [u8; ACPI_HEADER_LEN])
        ensures
            out@ == header_bytes(*self, total_len),
    {
        let s = self.signature;
        let l = u32_le_array(total_len);
        let o = self.oem_id;
        let t = self.oem_table_id;
        let r = u32_le_array(self.oem_revision);
        let c = self.creator_id;
        let cr = u32_le_array(self.creator_revision);
        let out = [
            s[0], s[1], s[2], s[3],
            l[0], l[1], l[2], l[3],
            self.revision, 0u8,
            o[0], o[1], o[2], o[3], o[4], o[5],
            t[0], t[1], t[2], t[3], t[4], t[5], t[6], t[7],
            r[0], r[1], r[2], r[3],
            c[0], c[1], c[2], c[3],
            cr[0], cr[1], cr[2], cr[3],
        ];
        assert(out@ =~= header_bytes(*self, total_len));
        out
    }
}

/// Every finalized table sums to zero modulo 256, is 36 bytes longer than
/// its body, and carries the body unchanged after the header.
pub proof fn lemma_finalized_table(h: AcpiHeader, body: Seq<u8>)
    ensures
        finalized_table(h, body).len() == 36 + body.len(),
        byte_sum(finalized_table(h, body)) % 256 == 0,
        finalized_table(h, body).subrange(36, 36 + body.len() as int) == body,
        finalized_table(h, body).subrange(0, 4) == h.signature@,
        finalized_table(h, body).subrange(4, 8) == le32(table_len(body.len())),
        finalized_table(h, body)[8] == h.revision,
{
    let raw = raw_table(h, body);
    assert(raw[9] == 0);
    lemma_checksum_zeroes_sum(raw, 9);
    assert(finalized_table(h, body).subrange(36, 36 + body.len() as int) =~= body);
    assert(finalized_table(h, body).subrange(0, 4) =~= h.signature@);
    assert(finalized_table(h, body).subrange(4, 8) =~= le32(table_len(body.len())));
}

/// The header of a finalized table carries the caller's fields in their
/// places: the OEM ID at byte 10, the OEM table ID at 16, the OEM revision
/// at 24, the creator ID at 28 and the creator revision at 32.
pub proof fn lemma_finalized_header_fields(h: AcpiHeader, body: Seq<u8>)
    ensures
        finalized_table(h, body).subrange(10, 16) == h.oem_id@,
        finalized_table(h, body).subrange(16, 24) == h.oem_table_id@,
        finalized_table(h, body).subrange(24, 28) == le32(h.oem_revision),
        finalized_table(h, body).subrange(28, 32) == h.creator_id@,
        finalized_table(h, body).subrange(32, 36) == le32(h.creator_revision),
{
    let t = finalized_table(h, body);
    lemma_finalized_table(h, body);
    assert(t.subrange(10, 16) =~= h.oem_id@);
    assert(t.subrange(16, 24) =~= h.oem_table_id@);
    assert(t.subrange(24, 28) =~= le32(h.oem_revision));
    assert(t.subrange(28, 32) =~= h.creator_id@);
    assert(t.subrange(32, 36) =~= le32(h.creator_revision));
}

/// Body bytes `a` to `b` stand at table bytes 36 + `a` to 36 + `b`.
pub proof fn lemma_body_field(h: AcpiHeader, body: Seq<u8>, a: int, b: int)
    requires
        0 <= a <= b <= body.len(),
    ensures
        finalized_table(h, body).subrange(36 + a, 36 + b) == body.subrange(a, b),
{
    lemma_finalized_table(h, body);
    assert(finalized_table(h, body).subrange(36 + a, 36 + b) =~= finalized_table(h, body).subrange(
        36,
        36 + body.len() as int,
    ).subrange(a, b));
}

proof fn lemma_table_len_wraps(len: nat)
    ensures
        table_len(len) == ((len % 0x1_0000_0000 + 36) % 0x1_0000_0000) as u32,
{
    vstd::arithmetic::div_mod::lemma_add_mod_noop_right(36, len as int, 0x1_0000_0000);
}

/// Puts `header` in front of `body`, sets the length field to the total
/// length and fills in the checksum so that the table sums to zero.
#[verifier::rlimit(40)]
#[verifier::spinoff_prover]
pub fn finalize_table(header: AcpiHeader, body: &[u8]) -> (out: Vec<u8>)
    ensures
        out@ == finalized_table(header, body@),
        out@.len() == 36 + body@.len(),
        byte_sum(out@) % 256 == 0,
{
    let n: u64 = (body.len() as u64) % 0x1_0000_0000;
    let total_len: u32 = ((n + 36) % 0x1_0000_0000) as u32;
    proof {
        lemma_table_len_wraps(body@.len());
    }
    let mut out: Vec<u8> = Vec::new();
    let encoded = header.encode(total_len);
    push_bytes(&mut out, &encoded);
    push_bytes(&mut out, body);
    assert(out@ == raw_table(header, body@));
    let c = acpi_checksum(out.as_slice());
    out.set(9, c);
    proof {
        lemma_finalized_table(header, body@);
    }
    out
}

} // verus!
