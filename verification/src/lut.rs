//! The HDR color lookup table: a 256x256x256 RGB cube.
use vstd::prelude::*;

verus! {

/// Bytes in one lookup table: 256^3 entries of 3 bytes.
pub const LUT_SIZE: usize = 50_331_648;

/// The table entry of a color: `(r + g * 256 + b * 65536) * 3`.
pub open spec fn lut_index(r: u8, g: u8, b: u8) -> int {
    (r as int + (g as int) * 256 + (b as int) * 65536) * 3
}

/// A color mapped through a table: the three bytes of its entry, or the color itself where
/// the table is too short for the entry.
pub open spec fn lut_lookup(r: u8, g: u8, b: u8, lut: Seq<u8>) -> (u8, u8, u8) {
    if lut_index(r, g, b) + 2 < lut.len() {
        (lut[lut_index(r, g, b)], lut[lut_index(r, g, b) + 1], lut[lut_index(r, g, b) + 2])
    } else {
        (r, g, b)
    }
}

/// The table is a cube of 3-byte entries with red the innermost axis, green the middle one
/// and blue the outermost: black is the first entry; one step of red moves one entry, one
/// step of green 256 entries and one step of blue 65536 entries; and a full table maps every
/// color to the three bytes of its entry.
pub proof fn law_lut_axes(r: u8, g: u8, b: u8, lut: Seq<u8>)
    requires
        lut.len() >= LUT_SIZE,
    ensures
        lut_index(0, 0, 0) == 0,
        r < 255 ==> lut_index((r + 1) as u8, g, b) == lut_index(r, g, b) + 3,
        g < 255 ==> lut_index(r, (g + 1) as u8, b) == lut_index(r, g, b) + 3 * 256,
        b < 255 ==> lut_index(r, g, (b + 1) as u8) == lut_index(r, g, b) + 3 * 65536,
        0 <= lut_index(r, g, b) && lut_index(r, g, b) + 2 < LUT_SIZE,
        lut_lookup(r, g, b, lut) == (lut[lut_index(r, g, b)], lut[lut_index(r, g, b) + 1], lut[lut_index(r, g, b) + 2]),
{
}

/// Maps a color through the table; where the table is too short for the entry, the
/// color stays as it is.
pub fn apply_lut(r: u8, g: u8, b: u8, lut: &[u8]) -> (c: (u8, u8, u8))
    ensures
        c == lut_lookup(r, g, b, lut@),
{
    let index: usize = ((r as usize) + ((g as usize) * 256) + ((b as usize) * 65536)) * 3;
    if index + 2 < lut.len() {
        (lut[index], lut[index + 1], lut[index + 2])
    } else {
        (r, g, b)
    }
}

/// The table a file holds: its first `LUT_SIZE` bytes, where the file is that long.
pub fn lut_from_file_bytes(bytes: &[u8]) -> (r: Option<Vec<u8>>)
    ensures
        match r {
            Some(t) => bytes@.len() >= LUT_SIZE && t@ == bytes@.take(LUT_SIZE as int),
            None => bytes@.len() < LUT_SIZE,
        },
{
    if bytes.len() < LUT_SIZE {
        return None;
    }
    let mut t: Vec<u8> = Vec::new();
    let mut i: usize = 0;
    while i < LUT_SIZE
        invariant
            i <= LUT_SIZE,
            LUT_SIZE <= bytes@.len(),
            t@ == bytes@.take(i as int),
        decreases LUT_SIZE - i,
    {
        t.push(bytes[i]);
        proof {
            assert(t@ =~= bytes@.take(i + 1));
        }
        i = i + 1;
    }
    Some(t)
}

/// The table of the first candidate file that holds one: `files[i]` is what reading
/// candidate `i` gave (`None` where it could not be opened).
pub open spec fn first_table(files: Seq<Option<Vec<u8>>>) -> Option<Seq<u8>>
    decreases files.len(),
{
    if files.len() == 0 {
        None
    } else {
        match files[0] {
            Some(bytes) if bytes@.len() >= LUT_SIZE => Some(bytes@.take(LUT_SIZE as int)),
            _ => first_table(files.drop_first()),
        }
    }
}

/// The table of the first candidate file that opens and holds a whole table.
pub fn lut_from_candidates(files: &Vec<Option<Vec<u8>>>) -> (r: Option<Vec<u8>>)
    ensures
        match (r, first_table(files@)) {
            (Some(t), Some(s)) => t@ == s,
            (None, None) => true,
            _ => false,
        },
{
    let mut i: usize = 0;
    assert(files@.skip(0) =~= files@);
    while i < files.len()
        invariant
            i <= files@.len(),
            first_table(files@.skip(i as int)) == first_table(files@),
        decreases files.len() - i,
    {
        proof {
            assert(files@.skip(i as int).drop_first() =~= files@.skip(i as int + 1));
            assert(files@.skip(i as int)[0] == files@[i as int]);
        }
        if let Some(bytes) = &files[i] {
            if let Some(t) = lut_from_file_bytes(bytes.as_slice()) {
                return Some(t);
            }
        }
        i = i + 1;
    }
    proof {
        assert(files@.skip(i as int) =~= Seq::<Option<Vec<u8>>>::empty());
    }
    None
}

/// The HDR lookup table: loaded at most once; once loaded (or found missing) it stays.
#[derive(Debug)]
pub struct HdrLutCache {
    pub loaded: bool,
    pub table: Option<Vec<u8>>,
}

/// The view of an optional table.
pub open spec fn table_view(t: Option<Vec<u8>>) -> Option<Seq<u8>> {
    match t {
        Some(v) => Some(v@),
        None => None,
    }
}

impl HdrLutCache {
    /// Nothing loaded yet.
    pub fn new() -> (c: HdrLutCache)
        ensures
            !c.loaded,
            c.table is None,
    {
        HdrLutCache { loaded: false, table: None }
    }

    /// Whether the table was loaded (or found missing) already.
    pub fn is_loaded(&self) -> (b: bool)
        ensures
            b == self.loaded,
    {
        self.loaded
    }

    /// Keeps `found` as the table unless one was loaded before; a later load changes nothing.
    pub fn load(&mut self, found: Option<Vec<u8>>)
        ensures
            final(self).loaded,
            old(self).loaded ==> table_view(final(self).table) == table_view(old(self).table),
            !old(self).loaded ==> table_view(final(self).table) == table_view(found),
    {
        if !self.loaded {
            self.table = found;
            self.loaded = true;
        }
    }
}

/// The loaded HDR lookup table, if one was found.
pub fn get_hdr_lut(cache: &HdrLutCache) -> (r: Option<&[u8]>)
    ensures
        match (r, cache.table) {
            (Some(s), Some(t)) => s@ == t@,
            (None, None) => true,
            _ => false,
        },
{
    match &cache.table {
        Some(t) => Some(t.as_slice()),
        None => None,
    }
}

/// Once the table is loaded, any number of later loads leave it as the first load
/// made it, so every later lookup answers the same table.
pub proof fn law_table_loaded_once(cs: Seq<HdrLutCache>, founds: Seq<Option<Vec<u8>>>)
    requires
        cs.len() == founds.len() + 1,
        cs[0].loaded,
        forall|i: int| 0 <= i < founds.len() ==> (#[trigger] cs[i + 1]).loaded && (cs[i].loaded ==> table_view(
            cs[i + 1].table,
        ) == table_view(cs[i].table)),
    ensures
        forall|i: int| 0 <= i < cs.len() ==> #[trigger] table_view(cs[i].table) == table_view(cs[0].table),
    decreases founds.len(),
{
    if founds.len() > 0 {
        let n = founds.len() - 1;
        law_table_loaded_once(cs.take(n + 1), founds.take(n));
        assert forall|i: int| 0 <= i < cs.len() implies #[trigger] table_view(cs[i].table) == table_view(cs[0].table) by {
            if i <= n {
                assert(cs.take(n + 1)[i] == cs[i]);
            } else {
                assert(cs.take(n + 1)[n] == cs[n]);
                if n > 0 {
                    let m = n - 1;
                    assert(cs[m + 1].loaded);
                }
                assert(cs[n].loaded);
                assert(table_view(cs[n + 1].table) == table_view(cs[n].table));
            }
        }
    }
}

} // verus!
