//! The table blob: a byte buffer that tables are appended to, with a record
//! of where each table starts and how long it is.
use vstd::prelude::*;
use crate::acpi::bytes::{push_bytes, push_zeros, zeros};

verus! {

/// Where one table stands inside the blob.
#[derive(Debug, Clone, Copy, PartialEq, Eq)]
pub struct TableRef {
    pub signature: [u8; 4],
    pub offset: u32,
    pub length: u32,
}

/// The finished blob: its bytes and the tables in the order they were
/// appended.
#[derive(Debug, Clone)]
pub struct AcpiBlob {
    pub data: Vec<u8>,
    pub tables: Vec<TableRef>,
}

/// Builds a blob by appending tables; `base_address` is the guest physical
/// address at which the blob will be loaded.
#[derive(Debug, Clone)]
pub struct AcpiBlobBuilder {
    data: Vec<u8>,
    tables: Vec<TableRef>,
    base_address: u64,
}

/// The number of zero bytes that bring `len` up to a multiple of `alignment`.
pub open spec fn align_padding(len: nat, alignment: nat) -> nat {
    if len % alignment == 0 {
        0
    } else {
        (alignment - len % alignment) as nat
    }
}

impl AcpiBlobBuilder {
    /// The bytes appended so far.
    pub closed spec fn spec_data(&self) -> Seq<u8> {
        self.data@
    }

    /// The tables appended so far, in order.
    pub closed spec fn spec_tables(&self) -> Seq<TableRef> {
        self.tables@
    }

    /// The load address of the blob.
    pub closed spec fn spec_base_address(&self) -> u64 {
        self.base_address
    }

    /// An empty blob that will be loaded at `base_address`.
    pub fn new(base_address: u64) -> (b: Self)
        ensures
            b.spec_data() == Seq::<u8>::empty(),
            b.spec_tables() == Seq::<TableRef>::empty(),
            b.spec_base_address() == base_address,
    {
        Self { data: Vec::new(), tables: Vec::new(), base_address }
    }

    /// Pads the blob with zeros up to `len` bytes; a longer blob is left as
    /// it is.
    pub fn reserve_front(&mut self, len: usize)
        ensures
            old(self).spec_data().len() < len ==> final(self).spec_data() == old(self).spec_data()
                + zeros((len - old(self).spec_data().len()) as nat),
            old(self).spec_data().len() >= len ==> final(self).spec_data() == old(
                self,
            ).spec_data(),
            final(self).spec_tables() == old(self).spec_tables(),
            final(self).spec_base_address() == old(self).spec_base_address(),
    {
        if self.data.len() < len {
            let n = len - self.data.len();
            push_zeros(&mut self.data, n);
        }
    }

    /// Pads the blob with zeros up to the next multiple of `alignment`.
    pub fn align(&mut self, alignment: usize)
        requires
            alignment > 0,
            old(self).spec_data().len() + align_padding(old(self).spec_data().len(), alignment as nat)
                <= usize::MAX,
        ensures
            final(self).spec_data() == old(self).spec_data() + zeros(
                align_padding(old(self).spec_data().len(), alignment as nat),
            ),
            final(self).spec_data().len() % (alignment as nat) == 0,
            final(self).spec_tables() == old(self).spec_tables(),
            final(self).spec_base_address() == old(self).spec_base_address(),
    {
        let remainder = self.data.len() % alignment;
        if remainder != 0 {
            push_zeros(&mut self.data, alignment - remainder);
        } else {
            assert(self.data@ =~= self.data@ + zeros(0));
        }
        proof {
            let l = old(self).data@.len() as int;
            let a = alignment as int;
            if l % a != 0 {
                assert((l + (a - l % a)) % a == 0) by (nonlinear_arith)
                    requires a > 0;
            }
        }
    }

    /// Appends a table and records it; returns the offset at which it
    /// starts (the blob length before the call, as a 32-bit value).
    pub fn append_table(&mut self, signature: [u8; 4], bytes: Vec<u8>) -> (offset: u32)
        ensures
            offset == old(self).spec_data().len() as u32,
            final(self).spec_data() == old(self).spec_data() + bytes@,
            final(self).spec_tables() == old(self).spec_tables().push(
                TableRef { signature, offset, length: bytes@.len() as u32 },
            ),
            final(self).spec_base_address() == old(self).spec_base_address(),
            old(self).spec_data().len() + bytes@.len() <= u32::MAX ==> {
                &&& offset == old(self).spec_data().len()
                &&& final(self).spec_data().subrange(offset as int, offset + bytes@.len()) == bytes@
            },
    {
        let offset = self.data.len() as u32;
        let length = bytes.len() as u32;
        push_bytes(&mut self.data, bytes.as_slice());
        self.tables.push(TableRef { signature, offset, length });
        assert(self.data@.subrange(
            old(self).data@.len() as int,
            (old(self).data@.len() + bytes@.len()) as int,
        ) =~= bytes@);
        offset
    }

    /// Appends `length` zero bytes as a table whose contents are filled in
    /// later, records it and returns its offset.
    pub fn append_placeholder_table(&mut self, signature: [u8; 4], length: u32) -> (offset: u32)
        requires
            old(self).spec_data().len() + length <= usize::MAX,
        ensures
            offset == old(self).spec_data().len() as u32,
            final(self).spec_data() == old(self).spec_data() + zeros(length as nat),
            final(self).spec_tables() == old(self).spec_tables().push(
                TableRef { signature, offset, length },
            ),
            final(self).spec_base_address() == old(self).spec_base_address(),
    {
        let offset = self.data.len() as u32;
        push_zeros(&mut self.data, length as usize);
        self.tables.push(TableRef { signature, offset, length });
        offset
    }

    /// The guest physical address of the byte at `offset`.
    pub fn address_of(&self, offset: u32) -> (address: u64)
        requires
            self.spec_base_address() + offset <= u64::MAX,
        ensures
            address == self.spec_base_address() + offset,
    {
        self.base_address + offset as u64
    }

    /// The finished blob.
    pub fn finish(self) -> (blob: AcpiBlob)
        ensures
            blob.data@ == self.spec_data(),
            blob.tables@ == self.spec_tables(),
    {
        AcpiBlob { data: self.data, tables: self.tables }
    }
}

} // verus!
