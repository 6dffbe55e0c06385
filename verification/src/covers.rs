//! Content-addressed cover art storage: an image is filed under the hex
//! rendering of the SHA-256 digest of its bytes plus an extension derived
//! from its MIME type, so identical images share one file. The store tracks
//! which filenames exist; writing the bytes out is the caller's concern.

use vstd::prelude::*;
use sha2::Digest;
use crate::meta::{CoverImage, spec_ext_for_mime, ext_for_mime};
use crate::strutil::eq_str;

verus! {

/// What SHA-256 maps a byte string to; a pure function of the bytes alone.
pub uninterp spec fn sha256_of(data: Seq<u8>) -> Seq<u8>;

/// Relies on sha2::Sha256::digest: the digest depends on the input bytes
/// alone and is 32 bytes long.
#[verifier::external_body]
fn sha256_digest(data: &[u8]) -> (r: Vec<u8>)
    ensures
        r@ == sha256_of(data@),
        r@.len() == 32,
{
    sha2::Sha256::digest(data).to_vec()
}

pub open spec fn hex_digit(d: nat) -> char {
    if d == 0 {
        '0'
    } else if d == 1 {
        '1'
    } else if d == 2 {
        '2'
    } else if d == 3 {
        '3'
    } else if d == 4 {
        '4'
    } else if d == 5 {
        '5'
    } else if d == 6 {
        '6'
    } else if d == 7 {
        '7'
    } else if d == 8 {
        '8'
    } else if d == 9 {
        '9'
    } else if d == 10 {
        'a'
    } else if d == 11 {
        'b'
    } else if d == 12 {
        'c'
    } else if d == 13 {
        'd'
    } else if d == 14 {
        'e'
    } else {
        'f'
    }
}

/// Lower-case hex rendering of a byte string, two digits per byte.
pub open spec fn spec_hex(data: Seq<u8>) -> Seq<char>
    decreases data.len(),
{
    if data.len() == 0 {
        Seq::<char>::empty()
    } else {
        spec_hex(data.drop_last()).push(hex_digit((data.last() >> 4) as nat)).push(
            hex_digit((data.last() & 0xf) as nat),
        )
    }
}

fn hex_digit_exec(d: u8) -> (r: char)
    requires
        d < 16,
    ensures
        r == hex_digit(d as nat),
{
    if d == 0 {
        '0'
    } else if d == 1 {
        '1'
    } else if d == 2 {
        '2'
    } else if d == 3 {
        '3'
    } else if d == 4 {
        '4'
    } else if d == 5 {
        '5'
    } else if d == 6 {
        '6'
    } else if d == 7 {
        '7'
    } else if d == 8 {
        '8'
    } else if d == 9 {
        '9'
    } else if d == 10 {
        'a'
    } else if d == 11 {
        'b'
    } else if d == 12 {
        'c'
    } else if d == 13 {
        'd'
    } else if d == 14 {
        'e'
    } else {
        'f'
    }
}

pub fn to_hex(data: &Vec<u8>) -> (r: String)
    ensures
        r@ == spec_hex(data@),
{
    let mut r = String::new();
    let mut i: usize = 0;
    while i < data.len()
        invariant
            i <= data@.len(),
            r@ == spec_hex(data@.take(i as int)),
        decreases data@.len() - i,
    {
        let b = data[i];
        assert(b >> 4 < 16 && b & 0xf < 16) by (bit_vector);
        let hi = b >> 4;
        let lo = b & 0xf;
        r.push(hex_digit_exec(hi));
        r.push(hex_digit_exec(lo));
        proof {
            assert(data@.take(i + 1).drop_last() =~= data@.take(i as int));
            assert(data@.take(i + 1).last() == data@[i as int]);
        }
        i = i + 1;
    }
    assert(data@.take(data@.len() as int) == data@);
    r
}

/// The filename an image is stored under: hex digest, a dot, and the
/// extension for its MIME type.
pub open spec fn spec_cover_filename(data: Seq<u8>, mime: Seq<char>) -> Seq<char> {
    spec_hex(sha256_of(data)) + "."@ + spec_ext_for_mime(mime)
}

pub fn cover_filename(img: &CoverImage) -> (r: String)
    ensures
        r@ == spec_cover_filename(img.data@, img.mime@),
{
    let digest = sha256_digest(img.data.as_slice());
    let mut r = to_hex(&digest);
    r.append(".");
    let ext = ext_for_mime(img.mime.as_str());
    r.append(ext.as_str());
    r
}

/// The store after filing one image, and whether a new file was created:
/// a filename already present is left alone.
pub open spec fn spec_store(files: Seq<Seq<char>>, data: Seq<u8>, mime: Seq<char>) -> (
    Seq<Seq<char>>,
    bool,
) {
    let f = spec_cover_filename(data, mime);
    if files.contains(f) {
        (files, false)
    } else {
        (files.push(f), true)
    }
}

/// The set of cover files that exist, by filename.
pub struct CoverStore {
    pub files: Vec<String>,
}

impl CoverStore {
    pub open spec fn view_files(&self) -> Seq<Seq<char>> {
        self.files@.map_values(|f: String| f@)
    }

    /// No filename is listed twice.
    pub open spec fn wf(&self) -> bool {
        forall|i: int, j: int|
            0 <= i < j < self.view_files().len() ==> self.view_files()[i] != self.view_files()[j]
    }

    pub fn new() -> (r: CoverStore)
        ensures
            r.wf(),
            r.view_files() == Seq::<Seq<char>>::empty(),
    {
        let r = CoverStore { files: Vec::new() };
        assert(r.view_files() =~= Seq::<Seq<char>>::empty());
        r
    }

    /// Record one already-existing file, as when the store is loaded from a
    /// directory listing at startup; a duplicate name is ignored.
    pub fn add_existing(&mut self, name: String)
        requires
            old(self).wf(),
        ensures
            final(self).wf(),
            final(self).view_files() == if old(self).view_files().contains(name@) {
                old(self).view_files()
            } else {
                old(self).view_files().push(name@)
            },
    {
        let present = self.contains_name(name.as_str());
        if !present {
            self.files.push(name);
            assert(self.view_files() =~= old(self).view_files().push(
                self.view_files().last(),
            ));
        }
    }

    fn contains_name(&self, name: &str) -> (r: bool)
        ensures
            r == self.view_files().contains(name@),
    {
        let mut i: usize = 0;
        while i < self.files.len()
            invariant
                i <= self.view_files().len(),
                forall|k: int| 0 <= k < i ==> self.view_files()[k] != name@,
            decreases self.view_files().len() - i,
        {
            if eq_str(self.files[i].as_str(), name) {
                assert(self.view_files()[i as int] == name@);
                return true;
            }
            i = i + 1;
        }
        assert(forall|k: int|
            0 <= k < self.view_files().len() ==> self.view_files()[k] != name@);
        false
    }

    /// File one image: compute its content-addressed filename and record it.
    /// Returns the filename and whether the caller must write the bytes out
    /// (false exactly when identical content was already stored).
    pub fn store(&mut self, img: &CoverImage) -> (r: (String, bool))
        requires
            old(self).wf(),
        ensures
            final(self).wf(),
            r.0@ == spec_cover_filename(img.data@, img.mime@),
            (final(self).view_files(), r.1) == spec_store(
                old(self).view_files(),
                img.data@,
                img.mime@,
            ),
            final(self).view_files().contains(r.0@),
    {
        let name = cover_filename(img);
        let present = self.contains_name(name.as_str());
        if present {
            assert((self.view_files(), false) == spec_store(
                old(self).view_files(),
                img.data@,
                img.mime@,
            ));
            (name, false)
        } else {
            self.files.push(name.clone());
            proof {
                assert(self.view_files() =~= old(self).view_files().push(name@));
                assert(self.view_files().last() == name@);
            }
            (name, true)
        }
    }
}

/// Cover art deduplication: filing the same image bytes and type a second
/// time yields the same filename, creates nothing, and leaves the store
/// unchanged, so identical embedded art across tracks produces exactly one
/// file.
pub proof fn lemma_cover_dedup(files: Seq<Seq<char>>, data: Seq<u8>, mime: Seq<char>)
    ensures
        ({
            let (f1, c1) = spec_store(files, data, mime);
            let (f2, c2) = spec_store(f1, data, mime);
            &&& f2 == f1
            &&& !c2
            &&& f1.contains(spec_cover_filename(data, mime))
        }),
{
    let (f1, c1) = spec_store(files, data, mime);
    if !files.contains(spec_cover_filename(data, mime)) {
        assert(f1.last() == spec_cover_filename(data, mime));
    }
}

} // verus!
