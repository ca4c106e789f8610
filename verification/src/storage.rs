//! A lyrics store inside a library: a `_lyrics` directory with one
//! subdirectory per kind of lyrics and one `.lrc` file per track, and the id
//! of the library it lives in as the host's key-value store keeps it.
use vstd::prelude::*;
use crate::text::{chars_of, push_all, string_of};
use crate::writing::{join_path, joined};

verus! {

/// The key under which the store's library id is kept.
pub const LIBRARY_ID_KEY: &'static str = "lyrics_library_id";

/// The kinds of lyrics the store keeps apart.
#[derive(Clone, Copy, Debug, PartialEq, Eq, Structural)]
pub enum StoredKind {
    Synchronized,
    Plain,
}

pub open spec fn subdir_of(k: StoredKind) -> Seq<char> {
    match k {
        StoredKind::Synchronized => "synchronized"@,
        StoredKind::Plain => "plain"@,
    }
}

impl StoredKind {
    /// The subdirectory lyrics of this kind are kept in.
    pub fn subdir(self) -> (r: &'static str)
        ensures
            r@ == subdir_of(self),
    {
        match self {
            StoredKind::Synchronized => "synchronized",
            StoredKind::Plain => "plain",
        }
    }
}

/// A lyrics store: the directory it keeps its files in.
pub struct LyricsStorage {
    pub lyrics_dir: String,
}

impl LyricsStorage {
    /// The store of the library mounted at `mount_point`: its `_lyrics`
    /// directory.
    pub fn new(mount_point: &str) -> (r: LyricsStorage)
        ensures
            r.lyrics_dir@ == joined(mount_point@, "_lyrics"@),
    {
        LyricsStorage { lyrics_dir: join_path(mount_point, "_lyrics") }
    }

    /// The file the lyrics of kind `kind` of the track `track_id` are kept
    /// in: `<dir>/<subdir>/<track_id>.lrc`.
    pub fn lrc_path(&self, track_id: &str, kind: StoredKind) -> (r: String)
        ensures
            r@ == joined(joined(self.lyrics_dir@, subdir_of(kind)), track_id@ + ".lrc"@),
    {
        let dir = join_path(self.lyrics_dir.as_str(), kind.subdir());
        let mut name = chars_of(track_id);
        push_all(&mut name, chars_of(".lrc").as_slice());
        let file = string_of(name.as_slice());
        join_path(dir.as_str(), file.as_str())
    }
}

/// The `i32` that four bytes encode in little-endian two's complement.
pub open spec fn le_i32(b: Seq<u8>) -> int {
    let u = b[0] + 256 * b[1] + 65536 * b[2] + 16777216 * b[3];
    if u >= 0x8000_0000 {
        u - 0x1_0000_0000
    } else {
        u
    }
}

/// The four bytes of `i32::to_le_bytes`.
pub open spec fn le_bytes(id: i32) -> Seq<u8> {
    let u: int = if id < 0 {
        id + 0x1_0000_0000
    } else {
        id as int
    };
    seq![(u % 256) as u8, ((u / 256) % 256) as u8, ((u / 65536) % 256) as u8, (u / 16777216) as u8]
}

/// The library id kept in the store's key: four bytes, little-endian; none
/// when the value has another length.
pub fn stored_library_id(bytes: &[u8]) -> (r: Option<i32>)
    ensures
        r == if bytes@.len() == 4 {
            Some(le_i32(bytes@) as i32)
        } else {
            None::<i32>
        },
        r matches Some(id) ==> id == le_i32(bytes@),
{
    if bytes.len() != 4 {
        return None;
    }
    let u: u32 = bytes[0] as u32 + 256 * (bytes[1] as u32) + 65536 * (bytes[2] as u32) + 16777216 * (
    bytes[3] as u32);
    if u >= 0x8000_0000 {
        let low = (u - 0x8000_0000) as i32;
        Some(low + i32::MIN)
    } else {
        Some(u as i32)
    }
}

/// The bytes a library id is kept as: `i32::to_le_bytes`.
pub fn library_id_bytes(id: i32) -> (r: Vec<u8>)
    ensures
        r@ == le_bytes(id),
{
    let u: u32 = if id < 0 {
        (id as i64 + 0x1_0000_0000i64) as u32
    } else {
        id as u32
    };
    let mut r: Vec<u8> = Vec::new();
    r.push((u % 256) as u8);
    r.push(((u / 256) % 256) as u8);
    r.push(((u / 65536) % 256) as u8);
    r.push((u / 16777216) as u8);
    r
}

/// What is kept of a library id reads back as that id.
pub proof fn library_id_reads_back(id: i32)
    ensures
        le_bytes(id).len() == 4,
        le_i32(le_bytes(id)) == id,
{
    let u: int = if id < 0 {
        id + 0x1_0000_0000
    } else {
        id as int
    };
    assert(0 <= u < 0x1_0000_0000);
    assert(u % 256 + 256 * ((u / 256) % 256) + 65536 * ((u / 65536) % 256) + 16777216 * (u
        / 16777216) == u) by (nonlinear_arith)
        requires
            0 <= u < 0x1_0000_0000,
    {
        vstd::arithmetic::div_mod::lemma_fundamental_div_mod(u, 256);
        vstd::arithmetic::div_mod::lemma_fundamental_div_mod(u / 256, 256);
        vstd::arithmetic::div_mod::lemma_fundamental_div_mod(u / 65536, 256);
        vstd::arithmetic::div_mod::lemma_div_denominator(u, 256, 256);
        vstd::arithmetic::div_mod::lemma_div_denominator(u, 65536, 256);
    }
    let b = le_bytes(id);
    assert(b[0] == u % 256);
    assert(b[1] == (u / 256) % 256);
    assert(b[2] == (u / 65536) % 256);
    assert(b[3] == u / 16777216);
}

} // verus!
