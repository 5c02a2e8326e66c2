//! Which entries a `.tar.gz` holds.
//!
//! The archive is read by `tar` over `flate2`. `tar` adds up positions without a
//! check when it reads the extended headers of a GNU sparse file. So the headers are
//! looked at first, as they stand, and no sparse file that claims more bytes than any
//! archive can hold is reached.
use vstd::prelude::*;

verus! {

/// One header of an archive, as it stands.
#[derive(Debug, PartialEq, Eq, Structural, Clone, Copy)]
pub struct RawHeader {
    /// The byte that tells what kind of entry it is.
    pub kind: u8,
    /// Whether it is in the ustar format.
    pub ustar: bool,
    /// Whether it goes on in further blocks, if it is in the GNU format.
    pub extended: Option<bool>,
    /// The size that it gives for its entry.
    pub size: u64,
}

/// The kind of a GNU header that holds the long name of the entry behind it.
pub const LONG_NAME: u8 = 0x4c;

/// The kind of a GNU header that holds the long link target of the entry behind it.
pub const LONG_LINK: u8 = 0x4b;

/// The kind of a pax header for the entry behind it.
pub const PAX: u8 = 0x78;

/// The kind of a GNU sparse file.
pub const SPARSE: u8 = 0x53;

/// More bytes than any archive can hold.
pub const TOO_LARGE: u64 = 0x8000_0000_0000_0000;

/// Whether a header only describes the entry behind it. Both formats know such
/// headers, and no other does.
pub open spec fn is_extension(h: RawHeader) -> bool {
    (h.ustar || h.extended is Some) && (h.kind == LONG_NAME || h.kind == LONG_LINK || h.kind == PAX)
}

/// Whether a header is that of a sparse file with extended headers.
pub open spec fn is_extended_sparse(h: RawHeader) -> bool {
    h.kind == SPARSE && h.extended == Some(true)
}

/// The key of the pax record for the size of an entry.
pub open spec fn size_key() -> Seq<u8> {
    seq![0x73u8, 0x69u8, 0x7au8, 0x65u8]
}

/// The size that pax records give: that of the first record for it.
pub open spec fn recorded_size(records: Seq<(Seq<u8>, Option<u64>)>) -> Option<u64>
    decreases records.len(),
{
    if records.len() == 0 {
        None
    } else if records.first().0 == size_key() {
        records.first().1
    } else {
        recorded_size(records.drop_first())
    }
}

/// What a look at the raw headers of an archive shows.
#[derive(Debug, PartialEq, Eq, Structural, Clone, Copy)]
pub enum Scan {
    /// No entry among them needs a closer look.
    Clear,
    /// After this many entries comes one that takes up another space than its raw
    /// header says, so that nothing is known of the headers behind it.
    Resume(usize),
    /// After this many entries comes one that cannot be in the archive: a sparse file
    /// that claims too many bytes, or one that may be such a file.
    Stop(usize),
}

/// What a [`Scan`] holds.
pub enum ScanView {
    Clear,
    Resume(nat),
    Stop(nat),
}

impl DeepView for Scan {
    type V = ScanView;

    open spec fn deep_view(&self) -> ScanView {
        match *self {
            Scan::Clear => ScanView::Clear,
            Scan::Resume(n) => ScanView::Resume(n as nat),
            Scan::Stop(n) => ScanView::Stop(n as nat),
        }
    }
}

/// The same, with `n` more entries in front.
pub open spec fn later(s: ScanView, n: nat) -> ScanView {
    match s {
        ScanView::Clear => ScanView::Clear,
        ScanView::Resume(m) => ScanView::Resume(n + m),
        ScanView::Stop(m) => ScanView::Stop(n + m),
    }
}

/// The pax records in the entry `i`.
pub open spec fn records_at(rs: Seq<Seq<(Seq<u8>, Option<u64>)>>, i: int) -> Seq<
    (Seq<u8>, Option<u64>),
> {
    if i < rs.len() {
        rs[i]
    } else {
        seq![]
    }
}

/// What the headers `hs` from `i` on show, if `rs` are the pax records in their
/// entries and the extension headers just before `i` gave the size `given`. Where
/// the headers end with such a size pending, the next one may be unreadable only as
/// it stands, and what it is cannot be seen: `tar` goes by the size that was given.
pub open spec fn scan_from(
    hs: Seq<RawHeader>,
    rs: Seq<Seq<(Seq<u8>, Option<u64>)>>,
    i: int,
    given: Option<u64>,
) -> ScanView
    decreases hs.len() - i,
{
    if i < 0 || i >= hs.len() {
        match given {
            Some(size) => if size >= TOO_LARGE {
                ScanView::Stop(0)
            } else {
                ScanView::Resume(0)
            },
            None => ScanView::Clear,
        }
    } else {
        let h = hs[i];
        let size = match given {
            Some(size) => size,
            None => h.size,
        };
        if is_extension(h) {
            scan_from(
                hs,
                rs,
                i + 1,
                if h.kind == PAX {
                    recorded_size(records_at(rs, i))
                } else {
                    given
                },
            )
        } else if is_extended_sparse(h) && size >= TOO_LARGE {
            ScanView::Stop(0)
        } else if is_extended_sparse(h) || given is Some {
            ScanView::Resume(0)
        } else {
            later(scan_from(hs, rs, i + 1, None), 1)
        }
    }
}

/// What the raw headers `hs` show, if `rs` are the pax records in their entries.
pub open spec fn scanned(
    hs: Seq<RawHeader>,
    rs: Seq<Seq<(Seq<u8>, Option<u64>)>>,
) -> ScanView {
    scan_from(hs, rs, 0, None)
}

fn is_size_key(key: &Vec<u8>) -> (r: bool)
    ensures
        r == (key@ == size_key()),
{
    let r = key.len() == 4 && key[0] == 0x73 && key[1] == 0x69 && key[2] == 0x7a && key[3] == 0x65;
    assert(r ==> key@ == size_key());
    r
}

fn record_size(records: &Vec<(Vec<u8>, Option<u64>)>) -> (r: Option<u64>)
    ensures
        r == recorded_size(records.deep_view()),
{
    let ghost all = records.deep_view();
    let mut i: usize = 0;
    assert(all.skip(0) == all);
    while i < records.len()
        invariant
            i <= records.len(),
            all == records.deep_view(),
            recorded_size(all) == recorded_size(all.skip(i as int)),
        decreases records.len() - i,
    {
        assert(all.skip(i as int).drop_first() == all.skip(i + 1));
        assert(all[i as int] == records@[i as int].deep_view());
        assert(records@[i as int].0.deep_view() == records@[i as int].0@);
        if is_size_key(&records[i].0) {
            return records[i].1;
        }
        i = i + 1;
    }
    None
}

/// Looks at the raw headers of an archive, and at the pax records in their entries.
pub fn scan(headers: &Vec<RawHeader>, records: &Vec<Vec<(Vec<u8>, Option<u64>)>>) -> (r: Scan)
    ensures
        r.deep_view() == scanned(headers@, records.deep_view()),
{
    let ghost rs = records.deep_view();
    let mut given: Option<u64> = None;
    let mut entries: usize = 0;
    let mut i: usize = 0;
    while i < headers.len()
        invariant
            i <= headers.len(),
            entries <= i,
            rs == records.deep_view(),
            scanned(headers@, rs) == later(
                scan_from(headers@, rs, i as int, given),
                entries as nat,
            ),
        decreases headers.len() - i,
    {
        let h = headers[i];
        if (h.ustar || h.extended.is_some()) && (h.kind == LONG_NAME || h.kind == LONG_LINK
            || h.kind == PAX) {
            if h.kind == PAX {
                given = if i < records.len() {
                    record_size(&records[i])
                } else {
                    None
                };
                assert(given == recorded_size(records_at(rs, i as int)));
            }
        } else {
            let size: u64 = match given {
                Some(size) => size,
                None => h.size,
            };
            let extended_sparse = h.kind == SPARSE && match h.extended {
                Some(extended) => extended,
                None => false,
            };
            if extended_sparse && size >= TOO_LARGE {
                return Scan::Stop(entries);
            }
            if extended_sparse || given.is_some() {
                return Scan::Resume(entries);
            }
            entries = entries + 1;
        }
        i = i + 1;
    }
    match given {
        Some(size) => {
            if size >= TOO_LARGE {
                Scan::Stop(entries)
            } else {
                Scan::Resume(entries)
            }
        },
        None => Scan::Clear,
    }
}

/// The headers of a gzipped tar archive behind its first `k` entries, as they
/// stand, up to the first that cannot be read.
pub uninterp spec fn raw_headers(bytes: Seq<u8>, k: nat) -> Seq<RawHeader>;

/// The pax records in the entries that those headers stand before: their keys, and
/// their values where they are numbers.
pub uninterp spec fn raw_records(bytes: Seq<u8>, k: nat) -> Seq<Seq<(Seq<u8>, Option<u64>)>>;

/// What the headers behind the first `k` entries show.
pub open spec fn look_from(bytes: Seq<u8>, k: nat) -> ScanView {
    scanned(raw_headers(bytes, k), raw_records(bytes, k))
}

/// Whether the first `n` entries can be read, from the entry `k` on, without one
/// that cannot be in the archive.
pub open spec fn tame_from(bytes: Seq<u8>, k: nat, n: nat) -> bool
    decreases n - k,
{
    if k >= n {
        true
    } else {
        match look_from(bytes, k) {
            ScanView::Clear => true,
            ScanView::Stop(m) => k + m >= n,
            ScanView::Resume(m) => k + m >= n || tame_from(bytes, k + m + 1, n),
        }
    }
}

/// `tar::Archive::entries` over `flate2::read::GzDecoder`, with
/// `tar::Entries::raw` behind the first `k` entries: what `tar::Entry::header` and
/// `size` tell of each entry from there on, up to the first error. The contract names
/// the list, since it is a function of the bytes and of `k`. The first `k` entries
/// are passed over as [`list_archive`] lists them, under the same condition.
#[verifier::external_body]
fn headers_after(bytes: &[u8], k: usize) -> (r: Vec<RawHeader>)
    requires
        tame_from(bytes@, 0, k as nat),
    ensures
        r@ == raw_headers(bytes@, k as nat),
{
    let mut archive = tar::Archive::new(flate2::read::GzDecoder::new(bytes));
    let Ok(mut all) = archive.entries() else { return vec![] };
    all.by_ref().take(k).for_each(drop);
    all.raw(true).map_while(Result::ok).map(|e| RawHeader {
        kind: e.header().entry_type().as_byte(),
        ustar: e.header().as_ustar().is_some(),
        extended: e.header().as_gnu().map(|g| g.is_extended()),
        size: e.size(),
    }).collect()
}

/// The same walk as that of [`headers_after`]: what `tar::Entry::pax_extensions`
/// gives for each entry, up to its first error, with the keys as bytes and the
/// values as numbers where they are. The contract names the list.
#[verifier::external_body]
fn records_after(bytes: &[u8], k: usize) -> (r: Vec<Vec<(Vec<u8>, Option<u64>)>>)
    requires
        tame_from(bytes@, 0, k as nat),
    ensures
        r.deep_view() == raw_records(bytes@, k as nat),
{
    let mut archive = tar::Archive::new(flate2::read::GzDecoder::new(bytes));
    let Ok(mut all) = archive.entries() else { return vec![] };
    all.by_ref().take(k).for_each(drop);
    all.raw(true).map_while(Result::ok).map(|mut e| {
        e.pax_extensions().ok().flatten().into_iter().flatten().map_while(Result::ok)
            .map(|x| (x.key_bytes().to_vec(), x.value().ok().and_then(|v| v.parse().ok())))
            .collect()
    }).collect()
}

/// The paths of the entries of a gzipped tar archive, in order, with `None` for an
/// entry that cannot be read.
pub uninterp spec fn archive_paths(bytes: Seq<u8>) -> Seq<Option<Seq<u8>>>;

/// The first `n` elements of `s`, or all if there are no more.
pub open spec fn first<T>(s: Seq<T>, n: nat) -> Seq<T> {
    if s.len() <= n {
        s
    } else {
        s.take(n as int)
    }
}

/// `tar::Archive::entries` over `flate2::read::GzDecoder`: the raw path
/// (`tar::Entry::path_bytes`) of each of the first `n` entries, `None` for one that
/// the iterator reports as an error. The contract names the list of all of them,
/// since it is a function of the bytes, and says that the iterator ends with the
/// first error. `tar` adds the length of each extended header of a sparse file to the
/// position behind the file without a check. Entries for which that could run over
/// are left out: those that claim 2^63 bytes or more.
#[verifier::external_body]
fn list_archive(bytes: &[u8], n: usize) -> (r: Vec<Option<Vec<u8>>>)
    requires
        tame_from(bytes@, 0, n as nat),
    ensures
        r.deep_view() == first(archive_paths(bytes@), n as nat),
        r@.len() <= n,
        forall|i: int| 0 <= i < r@.len() - 1 ==> (#[trigger] r@[i]) is Some,
{
    match tar::Archive::new(flate2::read::GzDecoder::new(bytes)).entries() {
        Ok(all) => all.take(n).map(|e| e.ok().map(|e| e.path_bytes().into_owned())).collect(),
        Err(_) => std::iter::once(None).take(n).collect(),
    }
}

/// How many entries may be read (`None`: all), if those before the entry `k` may.
/// An archive of more entries than can be counted is given up on where the count
/// would run over.
pub open spec fn readable_from(bytes: Seq<u8>, k: nat) -> Option<nat>
    decreases usize::MAX - k,
{
    match look_from(bytes, k) {
        ScanView::Clear => None,
        ScanView::Stop(m) => Some(if k + m < usize::MAX {
            k + m
        } else {
            k
        }),
        ScanView::Resume(m) => if k + m < usize::MAX {
            readable_from(bytes, k + m + 1)
        } else {
            Some(k)
        },
    }
}

fn readable(bytes: &[u8]) -> (r: Option<usize>)
    ensures
        match r {
            Some(n) => readable_from(bytes@, 0) == Some(n as nat) && tame_from(
                bytes@,
                0,
                n as nat,
            ),
            None => readable_from(bytes@, 0) is None && forall|n: nat|
                #[trigger] tame_from(bytes@, 0, n),
        },
{
    let mut k: usize = 0;
    loop
        invariant
            readable_from(bytes@, 0) == readable_from(bytes@, k as nat),
            forall|n: nat| n <= k ==> #[trigger] tame_from(bytes@, 0, n),
            forall|n: nat|
                n > k ==> #[trigger] tame_from(bytes@, 0, n) == tame_from(bytes@, k as nat, n),
        decreases usize::MAX - k,
    {
        let headers = headers_after(bytes, k);
        let records = records_after(bytes, k);
        let found = scan(&headers, &records);
        assert(found.deep_view() == look_from(bytes@, k as nat));
        match found {
            Scan::Clear => {
                return None;
            },
            Scan::Stop(m) => {
                if m < usize::MAX - k {
                    let n: usize = k + m;
                    assert(n > k ==> tame_from(bytes@, k as nat, n as nat));
                    return Some(n);
                }
                return Some(k);
            },
            Scan::Resume(m) => {
                if m >= usize::MAX - k {
                    return Some(k);
                }
                let next: usize = k + m + 1;
                proof {
                    assert forall|n: nat| n > k implies #[trigger] tame_from(bytes@, 0, n) == (n
                        <= next || tame_from(bytes@, next as nat, n)) by {
                        assert(tame_from(bytes@, 0, n) == tame_from(bytes@, k as nat, n));
                        assert(tame_from(bytes@, k as nat, n) == (k + m >= n || tame_from(
                            bytes@,
                            k as nat + m as nat + 1,
                            n,
                        )));
                        if n == next {
                            assert(tame_from(bytes@, next as nat, n));
                        }
                    }
                }
                k = next;
            },
        }
    }
}

/// What an archive lists.
#[derive(Debug, PartialEq, Eq)]
pub struct Contents {
    /// The paths of its entries, in order, with `None` for one at which `tar` reports
    /// an error.
    pub paths: Vec<Option<Vec<u8>>>,
    /// Whether an entry follows that cannot be in the archive. `tar` must not be made
    /// to read it.
    pub cut_off: bool,
}

/// What a [`Contents`] holds.
#[verifier::ext_equal]
pub struct ContentsView {
    pub paths: Seq<Option<Seq<u8>>>,
    pub cut_off: bool,
}

impl DeepView for Contents {
    type V = ContentsView;

    open spec fn deep_view(&self) -> ContentsView {
        ContentsView { paths: self.paths.deep_view(), cut_off: self.cut_off }
    }
}

/// Whether a list of paths ends with an entry that cannot be read.
pub open spec fn ends_broken(paths: Seq<Option<Seq<u8>>>) -> bool {
    paths.len() > 0 && paths.last() is None
}

/// What a gzipped tar archive lists: its entries up to the first that cannot be
/// read, or that cannot be in the archive.
pub open spec fn contents_of(bytes: Seq<u8>) -> ContentsView {
    match readable_from(bytes, 0) {
        None => ContentsView {
            paths: first(archive_paths(bytes), usize::MAX as nat),
            cut_off: false,
        },
        Some(n) => {
            let paths = first(archive_paths(bytes), n);
            ContentsView { paths, cut_off: !ends_broken(paths) }
        },
    }
}

/// Lists the entries of a gzipped tar archive.
pub fn entry_paths(bytes: &[u8]) -> (r: Contents)
    ensures
        r.deep_view() == contents_of(bytes@),
        forall|i: int| 0 <= i < r.paths@.len() - 1 ==> (#[trigger] r.paths@[i]) is Some,
        r.cut_off ==> forall|i: int| 0 <= i < r.paths@.len() ==> (#[trigger] r.paths@[i]) is Some,
{
    match readable(bytes) {
        None => Contents { paths: list_archive(bytes, usize::MAX), cut_off: false },
        Some(n) => {
            let paths = list_archive(bytes, n);
            let ghost v = paths.deep_view();
            assert(v.len() == paths@.len());
            if paths.len() > 0 {
                assert(v.last() == paths@.last().deep_view());
            }
            let cut_off = paths.len() == 0 || paths[paths.len() - 1].is_some();
            Contents { paths, cut_off }
        },
    }
}

/// The size that pax records give is that of the first record with the key `size`,
/// whatever stands before and behind it. Without one they give none.
pub proof fn law_first_size_record_counts(
    before: Seq<(Seq<u8>, Option<u64>)>,
    size: Option<u64>,
    rest: Seq<(Seq<u8>, Option<u64>)>,
)
    requires
        forall|i: int|
            0 <= i < before.len() ==> (#[trigger] before[i]).0 != seq![0x73u8, 0x69, 0x7a, 0x65],
    ensures
        recorded_size(before + seq![(seq![0x73u8, 0x69, 0x7a, 0x65], size)] + rest) == size,
        recorded_size(before) is None,
    decreases before.len(),
{
    let key = seq![0x73u8, 0x69, 0x7a, 0x65];
    let all = before + seq![(key, size)] + rest;
    if before.len() > 0 {
        let front = before.drop_first();
        assert(all.first() == before[0]);
        assert forall|i: int| 0 <= i < front.len() implies (#[trigger] front[i]).0 != key by {
            assert(front[i] == before[i + 1]);
        }
        assert(all.drop_first() == front + seq![(key, size)] + rest);
        law_first_size_record_counts(front, size, rest);
    } else {
        assert(all.first() == (key, size));
    }
}

/// What one header does to a look at the headers. Long names, long links and pax
/// headers, which only the two formats with a name know, belong to the entry behind
/// them, and the last pax header among them may give its size. An entry whose size was
/// given elsewhere, or that is a sparse file with extended headers, ends the look, and
/// as the end of everything if it is such a file of 2^63 bytes or more. Every other
/// entry is counted and passed over.
pub proof fn law_look_at_a_header(
    hs: Seq<RawHeader>,
    rs: Seq<Seq<(Seq<u8>, Option<u64>)>>,
    i: int,
    given: Option<u64>,
)
    requires
        0 <= i < hs.len(),
    ensures
        ({
            let h = hs[i];
            let named = h.ustar || h.extended is Some;
            let sparse = h.kind == 0x53 && h.extended == Some(true);
            let size = if given is Some {
                given->0
            } else {
                h.size
            };
            let look = scan_from(hs, rs, i, given);
            &&& named && (h.kind == 0x4c || h.kind == 0x4b) ==> look == scan_from(
                hs,
                rs,
                i + 1,
                given,
            )
            &&& named && h.kind == 0x78 && i < rs.len() ==> look == scan_from(
                hs,
                rs,
                i + 1,
                recorded_size(rs[i]),
            )
            &&& named && h.kind == 0x78 && i >= rs.len() ==> look == scan_from(hs, rs, i + 1, None)
            &&& !(named && (h.kind == 0x4c || h.kind == 0x4b || h.kind == 0x78)) ==> {
                &&& sparse && size >= 0x8000_0000_0000_0000 ==> look == ScanView::Stop(0)
                &&& sparse && size < 0x8000_0000_0000_0000 ==> look == ScanView::Resume(0)
                &&& !sparse && given is Some ==> look == ScanView::Resume(0)
                &&& !sparse && given is None ==> look == (match scan_from(hs, rs, i + 1, None) {
                    ScanView::Clear => ScanView::Clear,
                    ScanView::Resume(m) => ScanView::Resume(m + 1),
                    ScanView::Stop(m) => ScanView::Stop(m + 1),
                })
            }
        }),
{
}

/// Where the headers end, a size that was given for an entry that is not there decides:
/// there is nothing to be seen of that entry.
pub proof fn law_look_at_the_end(
    hs: Seq<RawHeader>,
    rs: Seq<Seq<(Seq<u8>, Option<u64>)>>,
    size: u64,
)
    ensures
        scan_from(hs, rs, hs.len() as int, None) == ScanView::Clear,
        scan_from(hs, rs, hs.len() as int, Some(size)) == (if size >= 0x8000_0000_0000_0000 {
            ScanView::Stop(0)
        } else {
            ScanView::Resume(0)
        }),
        scanned(hs, rs) == scan_from(hs, rs, 0, None),
{
}

proof fn lemma_ordinary_headers(
    hs: Seq<RawHeader>,
    rs: Seq<Seq<(Seq<u8>, Option<u64>)>>,
    i: int,
)
    requires
        0 <= i <= hs.len(),
        forall|j: int|
            0 <= j < hs.len() ==> !((#[trigger] hs[j]).kind == 0x53 && hs[j].extended == Some(true)),
        forall|j: int, n: int|
            0 <= j < rs.len() && 0 <= n < rs[j].len() ==> (#[trigger] rs[j][n]).0 != seq![
                0x73u8,
                0x69,
                0x7a,
                0x65,
            ],
    ensures
        scan_from(hs, rs, i, None) == ScanView::Clear,
    decreases hs.len() - i,
{
    if i < hs.len() {
        if i < rs.len() {
            law_first_size_record_counts(rs[i], None, seq![]);
        }
        lemma_ordinary_headers(hs, rs, i + 1);
    }
}

/// An archive without sparse files in extended headers and without pax records for
/// sizes is listed as `tar` lists it, whatever else it holds.
pub proof fn law_ordinary_archive_is_listed(bytes: Seq<u8>)
    requires
        forall|j: int|
            0 <= j < raw_headers(bytes, 0).len() ==> !((#[trigger] raw_headers(bytes, 0)[j]).kind
                == 0x53 && raw_headers(bytes, 0)[j].extended == Some(true)),
        forall|j: int, n: int|
            0 <= j < raw_records(bytes, 0).len() && 0 <= n < raw_records(bytes, 0)[j].len() ==> (
            #[trigger] raw_records(bytes, 0)[j][n]).0 != seq![0x73u8, 0x69, 0x7a, 0x65],
        archive_paths(bytes).len() <= usize::MAX,
    ensures
        contents_of(bytes).paths == archive_paths(bytes),
        !contents_of(bytes).cut_off,
{
    lemma_ordinary_headers(raw_headers(bytes, 0), raw_records(bytes, 0), 0);
}

/// How far an archive is read: to its end where the headers show nothing, up to the
/// entry that cannot be in it, and past an entry that takes up another space than its
/// header says, from where the headers are looked at anew.
pub proof fn law_how_far_an_archive_is_read(bytes: Seq<u8>, k: nat, m: nat)
    requires
        k + m < usize::MAX,
    ensures
        ({
            let look = scanned(raw_headers(bytes, k), raw_records(bytes, k));
            &&& look is Clear ==> readable_from(bytes, k) is None
            &&& look == ScanView::Stop(m) ==> readable_from(bytes, k) == Some(k + m)
            &&& look == ScanView::Resume(m) ==> readable_from(bytes, k) == readable_from(
                bytes,
                k + m + 1,
            )
        }),
{
}

/// An archive is listed from its first entry on without a gap, up to the entry that
/// cannot be in it, if there is one. Such an entry is missed exactly if the list did not
/// end before it with one that cannot be read.
pub proof fn law_archive_is_listed(bytes: Seq<u8>, n: nat)
    ensures
        ({
            let c = contents_of(bytes);
            let all = archive_paths(bytes);
            &&& c.paths.len() <= all.len()
            &&& forall|i: int| 0 <= i < c.paths.len() ==> #[trigger] c.paths[i] == all[i]
            &&& readable_from(bytes, 0) is None ==> !c.cut_off && (all.len() <= usize::MAX
                ==> c.paths.len() == all.len())
            &&& readable_from(bytes, 0) == Some(n) ==> {
                &&& all.len() >= n ==> c.paths.len() == n
                &&& all.len() < n ==> c.paths.len() == all.len()
                &&& c.cut_off <==> c.paths.len() == 0 || c.paths[c.paths.len() - 1] is Some
            }
        }),
{
}

/// `tar` may read up to the entry `n` exactly if no look at the headers, from the
/// beginning or from behind an entry where the last one ended, shows one before it that
/// cannot be in the archive.
pub proof fn law_what_tar_may_read(bytes: Seq<u8>, k: nat, n: nat, m: nat)
    ensures
        k >= n ==> tame_from(bytes, k, n),
        ({
            let look = scanned(raw_headers(bytes, k), raw_records(bytes, k));
            &&& k < n && look is Clear ==> tame_from(bytes, k, n)
            &&& k < n && look == ScanView::Stop(m) ==> (tame_from(bytes, k, n) <==> k + m >= n)
            &&& k < n && look == ScanView::Resume(m) ==> (tame_from(bytes, k, n) <==> tame_from(
                bytes,
                k + m + 1,
                n,
            ))
        }),
{
    reveal_with_fuel(tame_from, 2);
}

} // verus!
