use sglaz::archive::{
    entry_paths, scan, Contents, RawHeader, Scan, LONG_LINK, LONG_NAME, PAX, SPARSE, TOO_LARGE,
};
use std::io::Write;

fn gz(data: &[u8]) -> Vec<u8> {
    let mut enc = flate2::write::GzEncoder::new(Vec::new(), flate2::Compression::default());
    enc.write_all(data).unwrap();
    enc.finish().unwrap()
}

fn file(name: &str, contents: &[u8]) -> Vec<u8> {
    let mut header = tar::Header::new_gnu();
    header.set_path(name).unwrap();
    header.set_size(contents.len() as u64);
    header.set_cksum();
    let mut out = header.as_bytes().to_vec();
    out.extend(contents);
    out.resize((out.len() + 511) / 512 * 512, 0);
    out
}

/// The header of a sparse file that goes on in one further block, and that block.
fn sparse(name: &str, size: u64, blocks: u64) -> Vec<u8> {
    let mut header = tar::Header::new_gnu();
    header.set_path(name).unwrap();
    header.set_size(size);
    header.set_entry_type(tar::EntryType::GNUSparse);
    let gnu = header.as_gnu_mut().unwrap();
    gnu.set_is_extended(true);
    gnu.set_real_size(blocks);
    header.set_cksum();
    let mut out = header.as_bytes().to_vec();
    out.resize(1024, 0);
    out
}

/// A pax header that gives the entry behind it a size.
fn pax_size(record: &str) -> Vec<u8> {
    let mut header = tar::Header::new_ustar();
    header.set_path("pax").unwrap();
    header.set_entry_type(tar::EntryType::XHeader);
    header.set_size(record.len() as u64);
    header.set_cksum();
    let mut out = header.as_bytes().to_vec();
    out.extend(record.as_bytes());
    out.resize(1024, 0);
    out
}

fn tarred(parts: &[Vec<u8>]) -> Vec<u8> {
    let mut all = parts.concat();
    all.resize(all.len() + 1024, 0);
    gz(&all)
}

fn some(p: &str) -> Option<Vec<u8>> {
    Some(p.as_bytes().to_vec())
}

fn whole(paths: Vec<Option<Vec<u8>>>) -> Contents {
    Contents { paths, cut_off: false }
}

fn cut_off(paths: Vec<Option<Vec<u8>>>) -> Contents {
    Contents { paths, cut_off: true }
}

fn raw(kind: u8, size: u64) -> RawHeader {
    RawHeader { kind, ustar: false, extended: Some(false), size }
}

fn extended(size: u64) -> RawHeader {
    RawHeader { extended: Some(true), ..raw(SPARSE, size) }
}

/// The records of entries of which only the one at `at` has one.
fn record(at: usize, key: &str, value: Option<u64>) -> Vec<Vec<(Vec<u8>, Option<u64>)>> {
    let mut all = vec![vec![]; at];
    all.push(vec![(b"path".to_vec(), None), (key.as_bytes().to_vec(), value)]);
    all
}

#[test]
fn ordinary_headers_are_clear() {
    assert_eq!(scan(&vec![], &vec![]), Scan::Clear);
    let headers = vec![
        raw(b'0', 5),
        raw(LONG_NAME, 200),
        raw(LONG_LINK, 200),
        raw(b'5', 0),
        raw(SPARSE, TOO_LARGE),
        raw(PAX, 9),
        raw(b'0', u64::MAX),
    ];
    assert_eq!(scan(&headers, &record(5, "mtime", Some(4))), Scan::Clear);
}

#[test]
fn an_extended_sparse_file_needs_another_look() {
    let headers = vec![raw(b'0', 1), raw(b'0', 1), extended(7)];
    assert_eq!(scan(&headers, &vec![]), Scan::Resume(2));
    let headers = vec![raw(LONG_NAME, 1), extended(TOO_LARGE - 1)];
    assert_eq!(scan(&headers, &vec![]), Scan::Resume(0));
}

#[test]
fn a_sparse_file_of_any_size_is_not_believed() {
    assert_eq!(scan(&vec![raw(b'0', 1), extended(TOO_LARGE)], &vec![]), Scan::Stop(1));
    let headers = vec![raw(PAX, 9), raw(LONG_NAME, 3), extended(0)];
    assert_eq!(scan(&headers, &record(0, "size", Some(u64::MAX))), Scan::Stop(0));
    let headers = vec![raw(PAX, 9), extended(u64::MAX)];
    assert_eq!(scan(&headers, &record(0, "size", Some(3))), Scan::Resume(0));
    assert_eq!(scan(&headers, &record(0, "size", None)), Scan::Stop(0));
}

#[test]
fn a_size_pending_at_the_end_is_followed() {
    let headers = vec![raw(b'0', 1), raw(PAX, 9)];
    assert_eq!(scan(&headers, &record(1, "size", Some(4))), Scan::Resume(1));
    assert_eq!(scan(&headers, &record(1, "size", Some(TOO_LARGE))), Scan::Stop(1));
    assert_eq!(scan(&headers, &record(1, "size", None)), Scan::Clear);
}

#[test]
fn a_size_from_pax_records_needs_another_look() {
    let headers = vec![raw(b'0', 1), raw(PAX, 9), raw(b'0', 0), extended(1)];
    assert_eq!(scan(&headers, &record(1, "size", Some(4))), Scan::Resume(1));
    assert_eq!(scan(&headers, &record(1, "size", None)), Scan::Resume(2));
    let unknown_format = RawHeader { extended: None, ..raw(PAX, 9) };
    let headers = vec![unknown_format, extended(1)];
    assert_eq!(scan(&headers, &record(0, "size", Some(u64::MAX))), Scan::Resume(1));
}

#[test]
fn paths_are_listed_in_order() {
    let bytes = tarred(&[file("top/a", b"1"), file("top/b", &[7; 600])]);
    assert_eq!(entry_paths(&bytes), whole(vec![some("top/a"), some("top/b")]));
}

#[test]
fn a_sparse_file_without_end_cuts_the_list_off() {
    for size in [0xffff_ffff_ffff_f800, 0x8000_0000_0000_0000] {
        let bytes = tarred(&[file("top/a", b"1"), sparse("top/s", size, 0), file("top/b", b"2")]);
        assert_eq!(entry_paths(&bytes), cut_off(vec![some("top/a")]));
    }
    let bytes = tarred(&[pax_size("29 size=18446744073709550592\n"), sparse("top/s", 0, 0)]);
    assert_eq!(entry_paths(&bytes), cut_off(vec![]));
}

#[test]
fn a_first_entry_without_end_cuts_the_list_off() {
    let bytes = tarred(&[sparse("top/s", 0xffff_ffff_ffff_fc00, 0)]);
    assert_eq!(entry_paths(&bytes), cut_off(vec![]));
    // Here the position behind the file itself runs over, which `tar` reports.
    let bytes = tarred(&[file("top/a", b"1"), sparse("top/s", 0xffff_ffff_ffff_fc00, 0)]);
    assert_eq!(entry_paths(&bytes), whole(vec![some("top/a"), None]));
}

#[test]
fn a_size_that_hides_its_entry_is_not_believed() {
    let bytes = tarred(&[
        pax_size("29 size=18446744073709549568\n"),
        sparse("top/s", u64::MAX, 0),
    ]);
    assert_eq!(entry_paths(&bytes), cut_off(vec![]));
}

#[test]
fn a_size_that_overflows_as_it_stands_hides_nothing() {
    let mut plain = tar::Header::new_gnu();
    plain.set_path("top/p").unwrap();
    plain.set_size(u64::MAX);
    plain.set_cksum();
    let plain = plain.as_bytes().to_vec();
    let bytes = tarred(&[
        pax_size("9 size=0\n"),
        plain.clone(),
        sparse("top/t", 0xffff_ffff_ffff_f600, 0),
    ]);
    assert_eq!(entry_paths(&bytes), cut_off(vec![some("top/p")]));
    let bytes = tarred(&[pax_size("9 size=0\n"), plain, file("top/q", b"q")]);
    assert_eq!(entry_paths(&bytes), whole(vec![some("top/p"), some("top/q")]));
}

#[test]
fn a_pax_header_at_the_end_cannot_be_read() {
    let bytes = tarred(&[file("top/a", b"1"), pax_size("9 size=7\n")]);
    assert_eq!(entry_paths(&bytes), whole(vec![some("top/a"), None]));
}

#[test]
fn a_sparse_file_that_fits_is_listed() {
    let bytes = tarred(&[
        sparse("top/s", 0, 0),
        file("top/b", b"2"),
        sparse("top/t", 0, 0),
        file("top/c", b"3"),
    ]);
    assert_eq!(
        entry_paths(&bytes),
        whole(vec![some("top/s"), some("top/b"), some("top/t"), some("top/c")])
    );
    let mut behind = vec![sparse("top/s", 0, 0)];
    behind.push(sparse("top/u", 0xffff_ffff_ffff_f800, 0));
    assert_eq!(entry_paths(&tarred(&behind)), cut_off(vec![some("top/s")]));
}

#[test]
fn a_size_from_pax_records_is_followed() {
    let mut sized = tar::Header::new_gnu();
    sized.set_path("top/p").unwrap();
    sized.set_size(0);
    sized.set_cksum();
    let mut entry = sized.as_bytes().to_vec();
    entry.extend(sparse("inner", 0xffff_ffff_ffff_fc00, 0));
    let bytes = tarred(&[pax_size("13 size=1024\n"), entry, file("top/q", b"q")]);
    assert_eq!(entry_paths(&bytes), whole(vec![some("top/p"), some("top/q")]));
}

#[test]
fn long_names_are_followed() {
    let long = format!("top/{}", "n".repeat(150));
    let mut builder = tar::Builder::new(Vec::new());
    let mut header = tar::Header::new_gnu();
    header.set_size(1);
    header.set_cksum();
    builder.append_data(&mut header, &long, &b"x"[..]).unwrap();
    assert_eq!(entry_paths(&gz(&builder.into_inner().unwrap())), whole(vec![some(&long)]));
}

#[test]
fn what_is_no_archive_cannot_be_read() {
    assert_eq!(entry_paths(b"plain"), whole(vec![None]));
    assert_eq!(entry_paths(&gz(&[1; 512])), whole(vec![None]));
    assert_eq!(entry_paths(&gz(b"")), whole(vec![]));
}
