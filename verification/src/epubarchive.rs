//! The files of an EPUB (a ZIP archive), and the documents an EPUB is read
//! from.
use vstd::prelude::*;
use vstd::utf8::{decode_utf8, encode_utf8, valid_utf8};
use std::io::Cursor;
use compression::prelude::{DecodeExt, Deflater};
use zip_structs::zip_central_directory::ZipCDEntry;
use zip_structs::zip_eocd::ZipEOCD;
use zip_structs::zip_local_file_header::ZipLocalFileHeader;
use crate::epub::container::Container;
use crate::epub::ncx::Ncx;
use crate::epub::opf::Opf;
use crate::pairs::{byte_pairs_view, lookup_bytes, pairs_map};
use crate::strings::{concat_str, contains_seq, debug_str, decimal, decimal_string, str_contains, str_debug};

verus! {

broadcast use vstd::string::group_string_axioms;

/// A local file header of the archive as read: its file name, compression
/// method and stored bytes, or the text of the error met reading it.
pub enum ZipEntryRead {
    Header { name: Vec<u8>, method: u16, data: Vec<u8> },
    Failed(String),
}

pub ghost enum ZipEntryReadV {
    Header { name: Seq<u8>, method: u16, data: Seq<u8> },
    Failed(Seq<char>),
}

impl View for ZipEntryRead {
    type V = ZipEntryReadV;

    open spec fn view(&self) -> ZipEntryReadV {
        match self {
            ZipEntryRead::Header { name, method, data } => ZipEntryReadV::Header {
                name: name@,
                method: *method,
                data: data@,
            },
            ZipEntryRead::Failed(e) => ZipEntryReadV::Failed(e@),
        }
    }
}

/// What `ZipEOCD::from_reader` of zip_structs reads from the archive
/// `source`: the number of central directory entries, the position of the
/// first and the position of the end-of-directory record; `None` where it
/// fails.
pub uninterp spec fn zip_eocd(source: Seq<u8>) -> Option<(u16, u32, u64)>;

/// Reads the end-of-directory record of the ZIP archive `source`.
///
/// Calls `ZipEOCD::from_reader` over a cursor on `source` and keeps three of
/// its fields; the contract claims only that the result is the one named by
/// `zip_eocd` for these bytes.
#[verifier::external_body]
fn read_eocd(source: &[u8]) -> (r: Option<(u16, u32, u64)>)
    ensures
        r == zip_eocd(source@),
{
    let mut cursor = Cursor::new(source);
    match ZipEOCD::from_reader(&mut cursor) {
        Ok(e) => Some((e.n_cd_entries, e.cd_starting_position, e.starting_position_with_signature)),
        Err(_) => None,
    }
}

/// What `ZipCDEntry::read_and_generate_from_signature` of zip_structs reads
/// from the archive `source` at position `pos`: the position of the entry's
/// local file header and the position right after the entry; `None` where
/// it fails.
pub uninterp spec fn cd_entry_at(source: Seq<u8>, pos: u64) -> Option<(u32, u64)>;

/// Reads the central directory entry at position `pos` of the ZIP archive
/// `source`.
///
/// Sets a cursor on `source` to `pos` and calls
/// `ZipCDEntry::read_and_generate_from_signature`; the contract claims only
/// that the local header position and the cursor's position after the call
/// are those named by `cd_entry_at` for these arguments.
#[verifier::external_body]
fn read_cd_entry(source: &[u8], pos: u64) -> (r: Option<(u32, u64)>)
    ensures
        r == cd_entry_at(source@, pos),
{
    let mut cursor = Cursor::new(source);
    cursor.set_position(pos);
    match ZipCDEntry::read_and_generate_from_signature(&mut cursor) {
        Ok(cd) => Some((cd.local_header_position, cursor.position())),
        Err(_) => None,
    }
}

/// What `ZipLocalFileHeader::read_and_generate_from_signature` of zip_structs
/// reads from the archive `source` at position `pos`: the file name,
/// compression method and stored bytes, or the `Debug` text of its error.
pub uninterp spec fn local_entry_at(source: Seq<u8>, pos: u32) -> ZipEntryReadV;

/// Reads the local file header at position `pos` of the ZIP archive
/// `source`.
///
/// Sets a cursor on `source` to `pos` and calls
/// `ZipLocalFileHeader::read_and_generate_from_signature`; the contract
/// claims only that the result is the one named by `local_entry_at` for
/// these arguments.
#[verifier::external_body]
fn read_local_header(source: &[u8], pos: u32) -> (r: ZipEntryRead)
    ensures
        r@ == local_entry_at(source@, pos),
{
    let mut cursor = Cursor::new(source);
    cursor.set_position(pos as u64);
    match ZipLocalFileHeader::read_and_generate_from_signature(&mut cursor) {
        Ok(h) => ZipEntryRead::Header {
            name: h.file_name_raw,
            method: h.compression_method,
            data: h.compressed_data.into_owned(),
        },
        Err(e) => ZipEntryRead::Failed(format!("{:?}", e)),
    }
}

/// Reading `n` central directory entries from position `pos` on: the
/// positions of their local file headers and the position after the last,
/// or `None` where one cannot be read.
pub open spec fn cd_walk(source: Seq<u8>, pos: u64, n: nat) -> Option<(Seq<u32>, u64)>
    decreases n,
{
    if n == 0 {
        Some((Seq::empty(), pos))
    } else {
        match cd_entry_at(source, pos) {
            None => None,
            Some((lh, next)) => prepend_heads(seq![lh], cd_walk(source, next, (n - 1) as nat)),
        }
    }
}

/// The positions `hs` put before those of a walk.
pub open spec fn prepend_heads(hs: Seq<u32>, w: Option<(Seq<u32>, u64)>) -> Option<(Seq<u32>, u64)> {
    match w {
        None => None,
        Some((ls, end)) => Some((hs + ls, end)),
    }
}

/// The local file headers that the central directory of the ZIP archive
/// `source` lists, in its order: the directory is read from the position
/// the end-of-directory record gives, entry after entry, and must end right
/// where that record starts; `None` where the record or an entry cannot be
/// read, or the directory does not end there.
pub open spec fn zip_entries(source: Seq<u8>) -> Option<Seq<ZipEntryReadV>> {
    match zip_eocd(source) {
        None => None,
        Some((n, start, end)) => match cd_walk(source, start as u64, n as nat) {
            None => None,
            Some((hs, last)) => if last == end {
                Some(hs.map_values(|p: u32| local_entry_at(source, p)))
            } else {
                None
            },
        },
    }
}

/// One more step of a walk over the central directory.
proof fn lemma_cd_walk_step(source: Seq<u8>, hs: Seq<u32>, pos: u64, m: nat, lh: u32, next: u64)
    requires
        m > 0,
        cd_entry_at(source, pos) == Some((lh, next)),
    ensures
        prepend_heads(hs, cd_walk(source, pos, m)) == prepend_heads(
            hs.push(lh),
            cd_walk(source, next, (m - 1) as nat),
        ),
{
    assert(hs + seq![lh] =~= hs.push(lh));
    match cd_walk(source, next, (m - 1) as nat) {
        None => {},
        Some((ls, end)) => {
            assert(hs + (seq![lh] + ls) =~= hs.push(lh) + ls);
        },
    }
}

/// Reads the local file headers of the ZIP archive `source`, as
/// `zip_entries` says.
fn read_zip(source: &[u8]) -> (r: Option<Vec<ZipEntryRead>>)
    ensures
        match r {
            Some(v) => zip_entries(source@) == Some(v@.map_values(|e: ZipEntryRead| e@)),
            None => zip_entries(source@) is None,
        },
{
    let (n, start, end) = match read_eocd(source) {
        Some(t) => t,
        None => {
            return None;
        },
    };
    let ghost total = cd_walk(source@, start as u64, n as nat);
    let mut heads: Vec<u32> = Vec::new();
    let mut pos: u64 = start as u64;
    let mut i: u16 = 0;
    assert(prepend_heads(heads@, cd_walk(source@, pos, n as nat)) == total) by {
        match total {
            None => {},
            Some((ls, e)) => {
                assert(heads@ + ls =~= ls);
            },
        }
    }
    while i < n
        invariant
            0 <= i <= n,
            zip_eocd(source@) == Some((n, start, end)),
            total == cd_walk(source@, start as u64, n as nat),
            prepend_heads(heads@, cd_walk(source@, pos, (n - i) as nat)) == total,
        decreases n - i,
    {
        match read_cd_entry(source, pos) {
            None => {
                assert(cd_walk(source@, pos, (n - i) as nat) is None);
                return None;
            },
            Some((lh, next)) => {
                proof {
                    lemma_cd_walk_step(source@, heads@, pos, (n - i) as nat, lh, next);
                }
                heads.push(lh);
                pos = next;
            },
        }
        i = i + 1;
    }
    assert(cd_walk(source@, pos, 0) == Some((Seq::<u32>::empty(), pos)));
    assert(heads@ + Seq::<u32>::empty() =~= heads@);
    if pos != end {
        return None;
    }
    let ghost want = heads@.map_values(|p: u32| local_entry_at(source@, p));
    let mut out: Vec<ZipEntryRead> = Vec::new();
    let mut j: usize = 0;
    while j < heads.len()
        invariant
            0 <= j <= heads.len(),
            want == heads@.map_values(|p: u32| local_entry_at(source@, p)),
            out@.map_values(|e: ZipEntryRead| e@) == want.take(j as int),
        decreases heads.len() - j,
    {
        let e = read_local_header(source, heads[j]);
        let ghost before = out@.map_values(|e: ZipEntryRead| e@);
        out.push(e);
        assert(out@.map_values(|e: ZipEntryRead| e@) =~= before.push(want[j as int]));
        assert(want.take(j + 1) =~= want.take(j as int).push(want[j as int]));
        j = j + 1;
    }
    assert(want.take(heads.len() as int) =~= want);
    Some(out)
}

/// What raw-deflate decoding of `data` gives: the bytes, or the `Debug`
/// text of the error; `None` where the decoder panics instead (it does on
/// some malformed streams, such as one with a block of the reserved type).
pub uninterp spec fn inflated(data: Seq<u8>) -> Option<Result<Seq<u8>, Seq<char>>>;

/// Decodes the raw-deflate stream `data`.
///
/// Runs the `Deflater` of the compression crate over the bytes and collects
/// the output; the contract claims only that the result is the one named by
/// `inflated` for these bytes, and asks for bytes on which the decoder does
/// not panic.
#[verifier::external_body]
fn inflate(data: &[u8]) -> (r: Result<Vec<u8>, String>)
    requires
        inflated(data@) is Some,
    ensures
        match r {
            Ok(v) => inflated(data@) == Some(Ok::<Seq<u8>, Seq<char>>(v@)),
            Err(e) => inflated(data@) == Some(Err::<Seq<u8>, Seq<char>>(e@)),
        },
{
    match data.iter().cloned().decode(&mut Deflater::new()).collect::<Result<Vec<u8>, _>>() {
        Ok(v) => Ok(v),
        Err(e) => Err(format!("{:?}", e)),
    }
}

/// The `Debug` text of the error std reports for the invalid UTF-8 bytes
/// `b`.
pub uninterp spec fn utf8_error_debug(b: Seq<u8>) -> Seq<char>;

/// The text that the bytes `b` encode in UTF-8, or the `Debug` text of the
/// error.
///
/// Calls `std::str::from_utf8`, which its documentation says succeeds exactly
/// on valid UTF-8; the contract claims that, that the text is the decoding
/// of the bytes, and that the error text is the one named by
/// `utf8_error_debug` for these bytes.
#[verifier::external_body]
pub(crate) fn utf8_text(b: &[u8]) -> (r: Result<&str, String>)
    ensures
        r is Ok == valid_utf8(b@),
        r matches Ok(s) ==> s@ == decode_utf8(b@),
        r matches Err(e) ==> e@ == utf8_error_debug(b@),
{
    std::str::from_utf8(b).map_err(|e| format!("{:?}", e))
}

/// The files that the entries `es` give, in order, or the error message of
/// the first entry that cannot be stored; `None` where the decoder panics on
/// a deflated entry before that.
pub open spec fn load_entries(es: Seq<ZipEntryReadV>) -> Option<
    Result<Seq<(Seq<u8>, Seq<u8>)>, Seq<char>>,
>
    decreases es.len(),
{
    if es.len() == 0 {
        Some(Ok(Seq::empty()))
    } else {
        match load_entries(es.drop_last()) {
            None => None,
            Some(Err(e)) => Some(Err(e)),
            Some(Ok(files)) => match es.last() {
                ZipEntryReadV::Failed(e) => Some(Err("Local file header "@ + e)),
                ZipEntryReadV::Header { name, method, data } => if method == 8 {
                    match inflated(data) {
                        None => None,
                        Some(Ok(content)) => Some(Ok(files.push((name, content)))),
                        Some(Err(e)) => Some(Err("Decompressed "@ + e)),
                    }
                } else if method == 0 {
                    Some(Ok(files.push((name, data))))
                } else {
                    Some(Err("Usupported compression method "@ + decimal(method as nat)))
                },
            },
        }
    }
}

/// Once a prefix of the entries fails to load, all of them fail with the
/// same message.
proof fn lemma_load_entries_err(es: Seq<ZipEntryReadV>, i: int)
    requires
        0 <= i <= es.len(),
        load_entries(es.subrange(0, i)) matches Some(Err(_)),
    ensures
        load_entries(es) == load_entries(es.subrange(0, i)),
    decreases es.len() - i,
{
    if i < es.len() {
        assert(es.drop_last().subrange(0, i) =~= es.subrange(0, i));
        lemma_load_entries_err(es.drop_last(), i);
        assert(es.drop_last() =~= es.subrange(0, es.len() - 1));
    } else {
        assert(es.subrange(0, i) =~= es);
    }
}

/// Where loading all the entries does not panic, loading a prefix of them
/// does not either.
proof fn lemma_load_entries_prefix(es: Seq<ZipEntryReadV>, i: int)
    requires
        0 <= i <= es.len(),
        load_entries(es) is Some,
    ensures
        load_entries(es.subrange(0, i)) is Some,
    decreases es.len() - i,
{
    if i < es.len() {
        assert(es.drop_last().subrange(0, i) =~= es.subrange(0, i));
        lemma_load_entries_prefix(es.drop_last(), i);
    } else {
        assert(es.subrange(0, i) =~= es);
    }
}

/// Whether some entry of `es` is deflated.
pub open spec fn has_deflated(es: Seq<ZipEntryReadV>) -> bool {
    exists|i: int| 0 <= i < es.len() && (#[trigger] es[i] matches ZipEntryReadV::Header { method, .. } && method == 8)
}

/// Entries none of which is deflated load without running the decoder.
proof fn lemma_load_entries_stored(es: Seq<ZipEntryReadV>)
    requires
        !has_deflated(es),
    ensures
        load_entries(es) is Some,
    decreases es.len(),
{
    if es.len() > 0 {
        assert forall|i: int| 0 <= i < es.drop_last().len() implies !(#[trigger] es.drop_last()[i] matches ZipEntryReadV::Header { method, .. } && method == 8) by {
            assert(es.drop_last()[i] == es[i]);
        }
        lemma_load_entries_stored(es.drop_last());
        assert(es.last() == es[es.len() - 1]);
    }
}

/// The files of an EPUB archive, by name; a later file of a name replaces an
/// earlier one.
pub struct EPubArchive {
    pub data: Vec<(Vec<u8>, Vec<u8>)>,
}

impl View for EPubArchive {
    type V = Map<Seq<u8>, Seq<u8>>;

    open spec fn view(&self) -> Map<Seq<u8>, Seq<u8>> {
        pairs_map(byte_pairs_view(self.data@))
    }
}

/// The name of the container file.
pub open spec fn container_file_name() -> Seq<u8> {
    seq![
        77u8, 69u8, 84u8, 65u8, 45u8, 73u8, 78u8, 70u8, 47u8, 99u8, 111u8, 110u8, 116u8, 97u8,
        105u8, 110u8, 101u8, 114u8, 46u8, 120u8, 109u8, 108u8,
    ]
}

/// The directory part of `name`: what precedes its last `/`, or nothing.
pub open spec fn dir_of(name: Seq<char>) -> Seq<char> {
    match last_slash(name) {
        Some(i) => name.subrange(0, i),
        None => Seq::empty(),
    }
}

/// The index of the last `/` of `s`.
pub open spec fn last_slash(s: Seq<char>) -> Option<int>
    decreases s.len(),
{
    if s.len() == 0 {
        None
    } else if s.last() == '/' {
        Some(s.len() - 1)
    } else {
        last_slash(s.drop_last())
    }
}

/// The index of the first item of the manifest whose id occurs in `toc`.
pub open spec fn ncx_item(items: Seq<crate::epub::opf::ManifestItem>, toc: Seq<char>) -> Option<int>
    decreases items.len(),
{
    if items.len() == 0 {
        None
    } else if contains_seq(toc, items[0].id@) {
        Some(0)
    } else {
        match ncx_item(items.drop_first(), toc) {
            Some(i) => Some(i + 1),
            None => None,
        }
    }
}

impl EPubArchive {
    /// Reads the files of the ZIP archive `source`, inflating those stored
    /// with deflate (method 8) and keeping those stored as they are (method
    /// 0); any other method, or a header or a stream that cannot be read, is
    /// an error.
    pub fn new(source: &[u8]) -> (r: Result<Self, String>)
        requires
            zip_entries(source@) matches Some(es) && load_entries(es) is Some,
        ensures
            match load_entries(zip_entries(source@)->Some_0)->Some_0 {
                Ok(files) => r matches Ok(a) && a@ == pairs_map(files),
                Err(e) => r matches Err(m) && m@ == e,
            },
    {
        let entries = match read_zip(source) {
            Some(v) => v,
            None => {
                return Err(String::new());
            },
        };
        let ghost es = entries@.map_values(|e: ZipEntryRead| e@);
        let mut data: Vec<(Vec<u8>, Vec<u8>)> = Vec::new();
        let mut i: usize = 0;
        assert(es.subrange(0, 0) =~= Seq::<ZipEntryReadV>::empty());
        assert(byte_pairs_view(data@) =~= Seq::<(Seq<u8>, Seq<u8>)>::empty());
        while i < entries.len()
            invariant
                0 <= i <= entries.len(),
                es == entries@.map_values(|e: ZipEntryRead| e@),
                zip_entries(source@) == Some(es),
                load_entries(es) is Some,
                load_entries(es.subrange(0, i as int)) == Some(
                    Ok::<Seq<(Seq<u8>, Seq<u8>)>, Seq<char>>(byte_pairs_view(data@)),
                ),
            decreases entries.len() - i,
        {
            let ghost prefix = es.subrange(0, i as int);
            assert(es.subrange(0, i + 1).drop_last() =~= prefix);
            assert(es.subrange(0, i + 1).last() == entries@[i as int]@);
            proof {
                lemma_load_entries_prefix(es, i + 1);
            }
            let ghost before = byte_pairs_view(data@);
            match &entries[i] {
                ZipEntryRead::Failed(e) => {
                    proof {
                        lemma_load_entries_err(es, i + 1);
                    }
                    return Err(concat_str("Local file header ", e.as_str()));
                },
                ZipEntryRead::Header { name, method, data: stored } => {
                    if *method == 8 {
                        match inflate(stored.as_slice()) {
                            Ok(content) => {
                                let ghost c = content@;
                                data.push((name.clone(), content));
                                assert(byte_pairs_view(data@) =~= before.push((name@, c)));
                            },
                            Err(e) => {
                                proof {
                                    lemma_load_entries_err(es, i + 1);
                                }
                                return Err(concat_str("Decompressed ", e.as_str()));
                            },
                        }
                    } else if *method == 0 {
                        data.push((name.clone(), stored.clone()));
                        assert(byte_pairs_view(data@) =~= before.push((name@, stored@)));
                    } else {
                        proof {
                            lemma_load_entries_err(es, i + 1);
                        }
                        let d = decimal_string(*method as u64);
                        return Err(concat_str("Usupported compression method ", d.as_str()));
                    }
                },
            }
            i = i + 1;
        }
        assert(es.subrange(0, entries.len() as int) =~= es);
        Ok(EPubArchive { data })
    }

    /// Reads, as `new` does, a ZIP archive none of whose entries is
    /// deflated; `None` where its central directory cannot be read or an
    /// entry is deflated (the decoder is then not known to return).
    pub fn open(source: &[u8]) -> (r: Option<Result<Self, String>>)
        ensures
            match zip_entries(source@) {
                None => r is None,
                Some(es) => if has_deflated(es) {
                    r is None
                } else {
                    match load_entries(es)->Some_0 {
                        Ok(files) => r matches Some(Ok(a)) && a@ == pairs_map(files),
                        Err(e) => r matches Some(Err(m)) && m@ == e,
                    }
                },
            },
    {
        match read_zip(source) {
            None => None,
            Some(entries) => {
                let ghost es = entries@.map_values(|e: ZipEntryRead| e@);
                let mut i: usize = 0;
                while i < entries.len()
                    invariant
                        0 <= i <= entries.len(),
                        es == entries@.map_values(|e: ZipEntryRead| e@),
                        zip_entries(source@) == Some(es),
                        forall|j: int| 0 <= j < i ==> !(#[trigger] es[j] matches ZipEntryReadV::Header { method, .. } && method == 8),
                    decreases entries.len() - i,
                {
                    let deflated = match &entries[i] {
                        ZipEntryRead::Header { method, .. } => *method == 8,
                        ZipEntryRead::Failed(_) => false,
                    };
                    assert(es[i as int] == entries@[i as int]@);
                    if deflated {
                        assert(es[i as int] matches ZipEntryReadV::Header { method, .. } && method == 8);
                        assert(has_deflated(es));
                        return None;
                    }
                    i = i + 1;
                }
                proof {
                    lemma_load_entries_stored(es);
                }
                Some(EPubArchive::new(source))
            },
        }
    }

    /// The directory part of a path in the archive: what precedes its last
    /// `/`, or the empty text.
    pub fn get_dir(file_name: &str) -> (r: String)
        ensures
            r@ == dir_of(file_name@),
    {
        let v = crate::strings::chars_of(file_name);
        let mut i: usize = v.len();
        assert(v@.subrange(0, v.len() as int) =~= v@);
        while i > 0
            invariant
                i <= v.len(),
                v@ == file_name@,
                last_slash(v@) == last_slash(v@.subrange(0, i as int)),
            decreases i,
        {
            let ghost pre = v@.subrange(0, i as int);
            assert(pre.drop_last() =~= v@.subrange(0, i - 1));
            if v[i - 1] == '/' {
                let r = crate::strings::string_from_chars(vstd::slice::slice_subrange(v.as_slice(), 0, i - 1));
                assert(v@.subrange(0, i - 1) =~= v@.subrange(0, i as int).subrange(0, i - 1));
                return r;
            }
            i = i - 1;
        }
        assert(v@.subrange(0, 0) =~= Seq::<char>::empty());
        String::new()
    }

    /// The bytes of the file `name`.
    pub fn get(&self, name: &Vec<u8>) -> (r: Option<&Vec<u8>>)
        ensures
            match r {
                Some(d) => self@.dom().contains(name@) && d@ == self@[name@],
                None => !self@.dom().contains(name@),
            },
    {
        lookup_bytes(&self.data, name.as_slice())
    }

    /// A copy of the files of the archive: names and contents.
    pub fn get_data(&self) -> (r: Vec<(Vec<u8>, Vec<u8>)>)
        ensures
            byte_pairs_view(r@) == byte_pairs_view(self.data@),
            pairs_map(byte_pairs_view(r@)) == self@,
    {
        let mut r: Vec<(Vec<u8>, Vec<u8>)> = Vec::new();
        let mut i: usize = 0;
        while i < self.data.len()
            invariant
                0 <= i <= self.data.len(),
                byte_pairs_view(r@) == byte_pairs_view(self.data@).take(i as int),
            decreases self.data.len() - i,
        {
            let name = self.data[i].0.clone();
            let content = self.data[i].1.clone();
            assert(name@ =~= self.data@[i as int].0@);
            assert(content@ =~= self.data@[i as int].1@);
            let ghost before = byte_pairs_view(r@);
            r.push((name, content));
            assert(byte_pairs_view(r@) =~= before.push((self.data@[i as int].0@, self.data@[i as int].1@)));
            assert(byte_pairs_view(self.data@).take(i + 1) =~= byte_pairs_view(self.data@).take(i as int).push(byte_pairs_view(self.data@)[i as int]));
            i = i + 1;
        }
        assert(byte_pairs_view(self.data@).take(i as int) =~= byte_pairs_view(self.data@));
        r
    }

    /// The text of the file `name`, if it is there and is valid UTF-8.
    pub fn get_as_str(&self, name: &Vec<u8>) -> (r: Option<&str>)
        ensures
            match r {
                Some(s) => self@.dom().contains(name@) && valid_utf8(self@[name@]) && s@
                    == decode_utf8(self@[name@]),
                None => !self@.dom().contains(name@) || !valid_utf8(self@[name@]),
            },
    {
        match self.get(name) {
            Some(content) => match utf8_text(content.as_slice()) {
                Ok(t) => Some(t),
                Err(_) => None,
            },
            None => None,
        }
    }

    /// The bytes of the container file.
    pub fn get_container_file(&self) -> (r: Option<&Vec<u8>>)
        ensures
            match r {
                Some(d) => self@.dom().contains(container_file_name()) && d@
                    == self@[container_file_name()],
                None => !self@.dom().contains(container_file_name()),
            },
    {
        let name: Vec<u8> = vec![
            77u8, 69u8, 84u8, 65u8, 45u8, 73u8, 78u8, 70u8, 47u8, 99u8, 111u8, 110u8, 116u8, 97u8,
            105u8, 110u8, 101u8, 114u8, 46u8, 120u8, 109u8, 108u8,
        ];
        assert(name@ =~= container_file_name());
        self.get(&name)
    }

    /// The text of the file named by the UTF-8 bytes of `name`, or the
    /// error a reader gets: the file is missing, or is not valid UTF-8.
    pub fn get_as_str_from_data<'d>(data: &'d EPubArchive, name: &str) -> (r: Result<
        &'d str,
        String,
    >)
        ensures
            ({
                let key = encode_utf8(name@);
                if !data@.dom().contains(key) {
                    r matches Err(m) && m@ == "Can't get "@ + str_debug(name@)
                } else if valid_utf8(data@[key]) {
                    r matches Ok(s) && s@ == decode_utf8(data@[key])
                } else {
                    r matches Err(m) && m@ == "Can't get utf8 "@ + utf8_error_debug(data@[key])
                }
            }),
    {
        match lookup_bytes(&data.data, name.as_bytes()) {
            Some(content) => match utf8_text(content.as_slice()) {
                Ok(t) => Ok(t),
                Err(e) => Err(concat_str("Can't get utf8 ", e.as_str())),
            },
            None => {
                let d = debug_str(name);
                Err(concat_str("Can't get ", d.as_str()))
            },
        }
    }
}

/// The documents of an EPUB: the container file, the package document, the
/// navigation control file (empty when there is none), the directory of the
/// package document and the path of the navigation control file.
pub struct Epub {
    pub opf: Opf,
    pub ncx: Ncx,
    pub container: Container,
    pub dir: String,
    pub ncx_path: String,
}

/// The path of the navigation control file: `dir`, `/` and the href of the
/// first manifest item whose id occurs in the spine's `toc` attribute.
pub open spec fn ncx_path_of(opf: Opf, dir: Seq<char>) -> Option<Seq<char>> {
    match opf.spine.toc {
        None => None,
        Some(toc) => match ncx_item(opf.manifest.items@, toc@) {
            Some(i) => Some(dir + "/"@ + opf.manifest.items@[i].href@),
            None => None,
        },
    }
}

impl Epub {
    /// Where the navigation control file of the package lies, if the spine
    /// names one.
    pub fn ncx_path(opf: &Opf, dir: &str) -> (r: Option<String>)
        ensures
            match ncx_path_of(*opf, dir@) {
                Some(p) => r matches Some(s) && s@ == p,
                None => r is None,
            },
    {
        match &opf.spine.toc {
            None => None,
            Some(toc) => {
                let items = &opf.manifest.items;
                let mut i: usize = 0;
                assert(items@.skip(0) =~= items@);
                while i < items.len()
                    invariant
                        0 <= i <= items.len(),
                        items@ == opf.manifest.items@,
                        opf.spine.toc == Some(*toc),
                        ncx_item(items@, toc@) == match ncx_item(items@.skip(i as int), toc@) {
                            Some(k) => Some(k + i),
                            None => None,
                        },
                    decreases items.len() - i,
                {
                    assert(items@.skip(i as int).drop_first() =~= items@.skip(i + 1));
                    assert(items@.skip(i as int)[0] == items@[i as int]);
                    if str_contains(toc.as_str(), items[i].id.as_str()) {
                        assert(ncx_item(items@.skip(i as int), toc@) == Some(0int));
                        let d = concat_str(dir, "/");
                        return Some(concat_str(d.as_str(), items[i].href.as_str()));
                    }
                    i = i + 1;
                }
                assert(items@.skip(i as int) =~= Seq::<crate::epub::opf::ManifestItem>::empty());
                None
            },
        }
    }
}

} // verus!
