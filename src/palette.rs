//! The palette index table: for each raw 8-bit sample, the index of the
//! nearest colour of the display palette.
use vstd::prelude::*;

verus! {

/// Number of entries of a palette index table: one per 8-bit sample value.
pub const PALETTE_DOMAIN: usize = 256;

/// A blob whose length is not the sample domain size.
#[derive(Debug, Clone, Copy, PartialEq, Eq, Structural)]
pub struct MalformedPaletteError {
    /// Length of the rejected blob.
    pub len: usize,
}

/// Nearest-palette-entry index for every sample value. Immutable once loaded.
#[derive(Debug, Clone, Copy)]
pub struct PaletteIndexTable {
    entries: [u8; 256],
}

impl View for PaletteIndexTable {
    type V = Seq<u8>;

    closed spec fn view(&self) -> Seq<u8> {
        self.entries@
    }
}

impl PaletteIndexTable {
    /// Reads a table from a blob of exactly 256 bytes: byte `n` is the palette
    /// index for sample `n`. Any other length is rejected.
    pub fn load(blob: &[u8]) -> (r: Result<PaletteIndexTable, MalformedPaletteError>)
        ensures
            r is Ok <==> blob@.len() == 256,
            r matches Ok(t) ==> t@ == blob@,
            r matches Err(e) ==> e.len == blob@.len(),
    {
        if blob.len() != PALETTE_DOMAIN {
            return Err(MalformedPaletteError { len: blob.len() });
        }
        let mut entries: [u8; 256] = [0u8; 256];
        let mut n: usize = 0;
        while n < PALETTE_DOMAIN
            invariant
                n <= 256,
                blob@.len() == 256,
                entries@.len() == 256,
                forall|k: int| 0 <= k < n ==> entries@[k] == blob@[k],
            decreases 256 - n,
        {
            entries[n] = blob[n];
            n = n + 1;
        }
        assert(entries@ =~= blob@);
        Ok(PaletteIndexTable { entries })
    }

    /// Palette index for `sample`.
    pub fn lookup(&self, sample: u8) -> (r: u8)
        ensures
            r == self@[sample as int],
    {
        self.entries[sample as usize]
    }

    /// The table as laid out in its blob, ready to hand to a compute device.
    pub fn entries(&self) -> (r: &[u8; 256])
        ensures
            r@ == self@,
    {
        &self.entries
    }
}

/// Every table covers exactly the sample domain.
pub proof fn lemma_table_covers_domain(table: PaletteIndexTable)
    ensures
        table@.len() == 256,
{
}

/// Lookup depends on the sample alone: equal samples give equal indices.
pub proof fn lemma_lookup_deterministic(table: PaletteIndexTable, s1: u8, s2: u8)
    requires
        s1 == s2,
    ensures
        table@[s1 as int] == table@[s2 as int],
{
}

} // verus!
