use fileshare::directory::Directory;
use fileshare::download::{Transfer, CHUNK_SIZE};
use fileshare::error::ServeError;
use fileshare::form::{parse_form, FormScanner, ScanPhase, HEADER_CAP};
use fileshare::index::DirEntryInfo;
use fileshare::router::{Method, RequestHandler, Route};

fn dir(root: &str) -> Directory {
    Directory::new(root.as_bytes().to_vec())
}

fn file(name: &str, size: u64) -> DirEntryInfo {
    DirEntryInfo { name: Some(name.as_bytes().to_vec()), is_file: Some(true), size: Some(size) }
}

fn subdir(name: &str) -> DirEntryInfo {
    DirEntryInfo { name: Some(name.as_bytes().to_vec()), is_file: Some(false), size: Some(4096) }
}

fn form(boundary: &str, name: &str, content: &[u8], closed: bool) -> Vec<u8> {
    let mut b = Vec::new();
    b.extend_from_slice(format!("--{}\r\n", boundary).as_bytes());
    b.extend_from_slice(
        format!("Content-Disposition: form-data; name=\"file\"; filename=\"{}\"\r\n", name)
            .as_bytes(),
    );
    b.extend_from_slice(b"Content-Type: application/octet-stream\r\n\r\n");
    b.extend_from_slice(content);
    if closed {
        b.extend_from_slice(format!("\r\n--{}--\r\n", boundary).as_bytes());
    }
    b
}

#[test]
fn full_path_joins_safe_name() {
    assert_eq!(dir("/srv/files").full_path(b"a.txt"), Ok(b"/srv/files/a.txt".to_vec()));
    assert_eq!(dir("/srv/files/").full_path(b"a.txt"), Ok(b"/srv/files/a.txt".to_vec()));
    assert_eq!(dir("").full_path(b"a.txt"), Ok(b"./a.txt".to_vec()));
    assert_eq!(dir("up").full_path(b".hidden"), Ok(b"up/.hidden".to_vec()));
}

#[test]
fn full_path_refuses_unsafe_names() {
    let d = dir("/srv/files");
    for n in [
        &b".."[..], b"../etc/passwd", b"/etc/passwd", b"a/b", b"a\\b", b".", b"", b"a..b",
        b"x\0y", b"sub/../../x",
    ] {
        assert_eq!(d.full_path(n), Err(ServeError::NotFoundError), "{:?}", n);
    }
}

#[test]
fn listing_holds_exactly_the_regular_files() {
    let d = dir("/srv");
    let entries = vec![file("a.txt", 3), subdir("sub"), file("b.bin", 10)];
    let idx = d.list_available_resources(&entries);
    let mut paths = idx.paths();
    paths.sort();
    assert_eq!(paths, vec![b"/a.txt".to_vec(), b"/b.bin".to_vec()]);
    assert_eq!(idx.get(b"/b.bin").map(|m| m.size), Some(10));
    assert!(idx.get(b"/sub").is_none());
    assert!(idx.get(b"/").is_none());
}

#[test]
fn listing_skips_unreadable_and_repeated_entries() {
    let d = dir("/srv");
    let entries = vec![
        DirEntryInfo { name: None, is_file: Some(true), size: Some(1) },
        DirEntryInfo { name: Some(b"x".to_vec()), is_file: None, size: Some(1) },
        DirEntryInfo { name: Some(b"y".to_vec()), is_file: Some(true), size: None },
        file("a", 1),
        file("a", 2),
    ];
    let idx = d.list_available_resources(&entries);
    assert_eq!(idx.len(), 1);
    assert_eq!(idx.entry(0).name, b"a".to_vec());
    assert_eq!(idx.entry(0).size, 1);
}

#[test]
fn listing_of_empty_root_is_empty() {
    let idx = dir("/srv").list_available_resources(&vec![]);
    assert_eq!(idx.len(), 0);
    assert!(idx.paths().is_empty());
}

#[test]
fn form_round_trip_keeps_content() {
    let content = b"hello\r\nworld\r\n--not-the-boundary".to_vec();
    let body = form("XyZ", "notes.txt", &content, true);
    let (name, got) = parse_form(&body).unwrap();
    assert_eq!(name, b"notes.txt".to_vec());
    assert_eq!(got, content);
    assert_eq!(got.len(), content.len());
}

#[test]
fn form_without_terminator_keeps_rest_of_stream() {
    let body = form("b", "f.bin", b"abc", false);
    assert_eq!(parse_form(&body), Ok((b"f.bin".to_vec(), b"abc".to_vec())));
}

#[test]
fn form_with_empty_content() {
    let body = form("b0", "empty", b"", true);
    assert_eq!(parse_form(&body), Ok((b"empty".to_vec(), Vec::new())));
}

#[test]
fn form_missing_filename_is_malformed() {
    let body = b"--b\r\nContent-Disposition: form-data; name=\"file\"\r\n\r\ndata\r\n--b--\r\n";
    assert_eq!(parse_form(body), Err(ServeError::MalformedFormError));
}

#[test]
fn form_with_empty_filename_is_malformed() {
    let body = form("b", "", b"data", true);
    assert_eq!(parse_form(&body), Err(ServeError::MalformedFormError));
}

#[test]
fn form_ending_inside_header_is_malformed() {
    let body = b"--b\r\nContent-Disposition: form-data; filename=\"a\"\r\n";
    assert_eq!(parse_form(body), Err(ServeError::MalformedFormError));
    assert_eq!(parse_form(b""), Err(ServeError::MalformedFormError));
}

#[test]
fn form_with_oversized_header_is_too_long() {
    let mut body = b"--b\r\nContent-Disposition: form-data; filename=\"a\"; x=\"".to_vec();
    body.extend(std::iter::repeat(b'z').take(2 * HEADER_CAP));
    body.extend_from_slice(b"\"\r\n\r\npayload");
    assert_eq!(parse_form(&body), Err(ServeError::FormTooLongError));
    let mut sc = FormScanner::new();
    sc.feed(&body[..HEADER_CAP]);
    assert_eq!(sc.phase(), ScanPhase::Header);
    sc.feed(&body[HEADER_CAP..HEADER_CAP + 1]);
    assert_eq!(sc.phase(), ScanPhase::Failed);
}

#[test]
fn form_ending_at_full_header_buffer_is_malformed() {
    let mut body = b"--b\r\nContent-Disposition: form-data; filename=\"a\"".to_vec();
    body.resize(HEADER_CAP, b' ');
    assert_eq!(parse_form(&body), Err(ServeError::MalformedFormError));
    body.push(b' ');
    assert_eq!(parse_form(&body), Err(ServeError::FormTooLongError));
}

#[test]
fn form_header_just_within_bound_is_accepted() {
    let head = "--b\r\nContent-Disposition: form-data; filename=\"a\"";
    let pad = HEADER_CAP - head.len() - 4;
    let mut body = head.as_bytes().to_vec();
    body.extend(std::iter::repeat(b' ').take(pad));
    body.extend_from_slice(b"\r\n\r\nxyz");
    assert_eq!(body.len(), HEADER_CAP + 3);
    assert_eq!(parse_form(&body), Ok((b"a".to_vec(), b"xyz".to_vec())));
}

#[test]
fn scanner_streams_in_chunks_like_whole_parse() {
    let content: Vec<u8> = (0..2000u32).map(|i| (i % 251) as u8).collect();
    let body = form("----7MA4YWxkTrZu0gW", "data.bin", &content, true);
    let mut sc = FormScanner::new();
    let mut out = Vec::new();
    for chunk in body.chunks(7) {
        out.extend(sc.feed(chunk));
    }
    assert_eq!(sc.phase(), ScanPhase::Complete);
    let up = sc.finish().unwrap();
    out.extend(up.tail);
    assert_eq!(up.name, b"data.bin".to_vec());
    assert_eq!(out, content);
}

#[test]
fn scanner_holds_back_possible_terminator() {
    let mut sc = FormScanner::new();
    let head = b"--b\r\nContent-Disposition: form-data; filename=\"a\"\r\n\r\n";
    assert!(sc.feed(head).is_empty());
    assert_eq!(sc.phase(), ScanPhase::Body);
    // The terminator is "\r\n--b": four bytes are held back at any time.
    assert_eq!(sc.feed(b"abcdef"), b"ab".to_vec());
    assert_eq!(sc.push(b'g'), Some(b'c'));
    let up = sc.finish().unwrap();
    assert_eq!(up.tail, b"defg".to_vec());
}

#[test]
fn transfer_of_whole_file_succeeds() {
    let mut t = Transfer::new(10000);
    let mut total = 0u64;
    while !t.is_done() {
        let n = t.next_request();
        assert!(n > 0 && n <= CHUNK_SIZE);
        t.record(n, n).unwrap();
        total += n;
    }
    assert_eq!(t.next_request(), 0);
    assert_eq!(t.finish(), Ok(10000));
    assert_eq!(total, 10000);
}

#[test]
fn transfer_chunk_sizes() {
    let mut t = Transfer::new(5000);
    assert_eq!(t.next_request(), 4096);
    t.record(4096, 4096).unwrap();
    assert_eq!(t.next_request(), 904);
}

#[test]
fn transfer_of_empty_file_succeeds() {
    let t = Transfer::new(0);
    assert!(t.is_done());
    assert_eq!(t.finish(), Ok(0));
}

#[test]
fn transfer_of_truncated_file_fails() {
    let mut t = Transfer::new(100);
    t.record(60, 60).unwrap();
    assert_eq!(t.record(0, 0), Err(ServeError::TransferError));
    assert_eq!(t.finish(), Err(ServeError::TransferError));
    assert_eq!(t.next_request(), 0);
}

#[test]
fn transfer_with_short_send_fails() {
    let mut t = Transfer::new(100);
    assert_eq!(t.record(100, 99), Err(ServeError::TransferError));
    assert_eq!(t.record(100, 100), Err(ServeError::TransferError));
    assert_eq!(t.finish(), Err(ServeError::TransferError));
}

#[test]
fn transfer_of_grown_file_fails() {
    let mut t = Transfer::new(10);
    assert_eq!(t.record(11, 11), Err(ServeError::TransferError));
}

#[test]
fn transfer_stopped_early_fails() {
    let mut t = Transfer::new(10);
    t.record(5, 5).unwrap();
    assert_eq!(t.finish(), Err(ServeError::TransferError));
}

fn handler() -> RequestHandler {
    RequestHandler::new(dir("/srv"), false)
}

#[test]
fn route_index_pages() {
    let h = handler();
    let idx = h.directory.list_available_resources(&vec![file("a b.txt", 1)]);
    assert!(matches!(h.route(Method::Get, b"/", &idx), Route::Index));
    assert!(matches!(h.route(Method::Get, b"/index.html", &idx), Route::Index));
    assert!(matches!(h.route(Method::Get, b"/index%2Ehtml", &idx), Route::Index));
}

#[test]
fn route_download_decodes_path() {
    let h = handler();
    let idx = h.directory.list_available_resources(&vec![file("a b.txt", 1), file("100%", 2)]);
    match h.route(Method::Get, b"/a%20b.txt", &idx) {
        Route::Download(n) => assert_eq!(n, b"a b.txt".to_vec()),
        _ => panic!("expected a download"),
    }
    match h.route(Method::Get, b"/100%", &idx) {
        Route::Download(n) => assert_eq!(n, b"100%".to_vec()),
        _ => panic!("expected a download"),
    }
    assert!(matches!(h.route(Method::Get, b"/a b.txt", &idx), Route::Download(_)));
    assert!(matches!(h.route(Method::Get, b"/a%20b.tx", &idx), Route::NotFound));
    assert!(matches!(h.route(Method::Get, b"/missing", &idx), Route::NotFound));
}

#[test]
fn route_post_and_other_methods() {
    let h = handler();
    let idx = h.directory.list_available_resources(&vec![file("a", 1)]);
    assert!(matches!(h.route(Method::Post, b"/", &idx), Route::Upload));
    assert!(matches!(h.route(Method::Post, b"/a", &idx), Route::NotFound));
    assert!(matches!(h.route(Method::Other, b"/", &idx), Route::NotAllowed));
}

#[test]
fn upload_heads_and_targets() {
    let h = handler();
    let ok = h.upload_head(&Ok(5));
    assert_eq!(ok.status, 302);
    assert_eq!(ok.location, Some(b"/".to_vec()));
    assert_eq!(ok.content_length, None);
    let bad = h.upload_head(&Err(ServeError::MalformedFormError));
    assert_eq!(bad.status, 400);
    assert_eq!(bad.location, None);
    assert_eq!(h.upload_head(&Err(ServeError::FormTooLongError)).status, 413);

    let up = FormScanner::new();
    let failed = up.finish();
    assert_eq!(h.upload_target(&failed), Err(ServeError::MalformedFormError));

    let body = form("b", "up.txt", b"x", true);
    let mut sc = FormScanner::new();
    sc.feed(&body);
    assert_eq!(h.upload_target(&sc.finish()), Ok(b"/srv/up.txt".to_vec()));

    let body = form("b", "../up.txt", b"x", true);
    let mut sc = FormScanner::new();
    sc.feed(&body);
    assert_eq!(h.upload_target(&sc.finish()), Err(ServeError::NotFoundError));
}

#[test]
fn download_head_sets_length_and_name() {
    let h = handler();
    let head = h.download_head(b"a.txt", 42);
    assert_eq!(head.status, 200);
    assert_eq!(head.content_length, Some(42));
    assert_eq!(head.attachment_name, Some(b"a.txt".to_vec()));
    assert_eq!(h.error_head(ServeError::NotFoundError).status, 404);
}

#[test]
fn error_statuses() {
    assert_eq!(ServeError::IoError.status_code(), 500);
    assert_eq!(ServeError::NotFoundError.status_code(), 404);
    assert_eq!(ServeError::TransferError.status_code(), 500);
    assert_eq!(ServeError::MalformedFormError.status_code(), 400);
    assert_eq!(ServeError::FormTooLongError.status_code(), 413);
}

#[test]
fn form_filename_running_past_its_line_is_malformed() {
    let body = b"--b\r\nfilename=\"a\r\n\"\r\n\r\n";
    assert_eq!(body.len(), 23);
    assert_eq!(parse_form(body), Err(ServeError::MalformedFormError));
    let body = b"--b\r\nContent-Disposition: form-data; filename=\"a\nb\"\r\n\r\nx";
    assert_eq!(parse_form(body), Err(ServeError::MalformedFormError));
}

#[test]
fn listing_skips_staging_files_but_keeps_odd_names() {
    let d = dir("/srv");
    let entries = vec![
        file("", 1),
        file("..upload-12-0.part", 5),
        file("v1..2.txt", 2),
        file("a\\b", 3),
        file(".upload-x", 4),
        file("ok.txt", 9),
    ];
    let idx = d.list_available_resources(&entries);
    assert_eq!(
        idx.paths(),
        vec![b"/v1..2.txt".to_vec(), b"/a\\b".to_vec(), b"/.upload-x".to_vec(), b"/ok.txt".to_vec()]
    );
    assert!(idx.get(b"/").is_none());
    let h = RequestHandler::new(dir("/srv"), false);
    assert!(matches!(h.route(Method::Get, b"/..upload-12-0.part", &idx), Route::NotFound));
    assert!(matches!(h.route(Method::Get, b"/v1..2.txt", &idx), Route::NotFound));
    assert!(matches!(h.route(Method::Get, b"/a%5Cb", &idx), Route::NotFound));
    assert!(matches!(h.route(Method::Get, b"/.upload-x", &idx), Route::Download(_)));
}

#[test]
fn uploaded_size_shows_in_listing() {
    let content = vec![7u8; 1234];
    let body = form("zz", "up.bin", &content, true);
    let (name, got) = parse_form(&body).unwrap();
    let entries = vec![file("other", 1), DirEntryInfo {
        name: Some(name.clone()),
        is_file: Some(true),
        size: Some(got.len() as u64),
    }];
    let idx = dir("/srv").list_available_resources(&entries);
    let m = idx.get(b"/up.bin").unwrap();
    assert_eq!(m.name, b"up.bin".to_vec());
    assert_eq!(m.size, 1234);
}

#[test]
fn staging_paths_stay_inside_root_and_upload_names_are_free() {
    let d = dir("/srv");
    assert_eq!(d.staging_path(b"7-1.part"), Ok(b"/srv/..upload-7-1.part".to_vec()));
    assert_eq!(d.staging_path(b"../x"), Err(ServeError::NotFoundError));
    let h = RequestHandler::new(dir("/srv"), false);
    let body = form("b", ".upload-7-1.part", b"x", true);
    let mut sc = FormScanner::new();
    sc.feed(&body);
    assert_eq!(h.upload_target(&sc.finish()), Ok(b"/srv/.upload-7-1.part".to_vec()));
}
