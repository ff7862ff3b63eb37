use vstd::prelude::*;

use crate::bytes::{append_bytes, bytes_eq, SLASH};
use crate::directory::{dir_prefix, is_safe_name, safe_name, Directory};
use crate::error::{status_of, ServeError};
use crate::form::FormUpload;
use crate::index::{public_path, ResourceIndex};

verus! {

pub const PERCENT: u8 = 37;

/// The value of an ASCII hex digit, upper or lower case.
pub open spec fn hex_value(c: u8) -> Option<u8> {
    if 48 <= c <= 57 {
        Some((c - 48) as u8)
    } else if 97 <= c <= 102 {
        Some((c - 87) as u8)
    } else if 65 <= c <= 70 {
        Some((c - 55) as u8)
    } else {
        None
    }
}

/// `s` with each `%` that is followed by two hex digits replaced by the byte
/// they spell; every other byte, a lone `%` included, is kept.
pub open spec fn percent_decoded(s: Seq<u8>) -> Seq<u8>
    decreases s.len(),
{
    if s.len() == 0 {
        Seq::empty()
    } else if s[0] == PERCENT && s.len() >= 3 && hex_value(s[1]) is Some && hex_value(
        s[2],
    ) is Some {
        seq![(hex_value(s[1])->Some_0 * 16 + hex_value(s[2])->Some_0) as u8] + percent_decoded(
            s.skip(3),
        )
    } else {
        seq![s[0]] + percent_decoded(s.skip(1))
    }
}

/// Relies on url::percent_encoding::percent_decode, collected into bytes: a
/// `%` followed by two hex digits becomes the byte they spell, and any other
/// byte, a `%` without two hex digits after it included, is passed through.
#[verifier::external_body]
fn percent_decode_path(raw: &[u8]) -> (r: Vec<u8>)
    ensures
        r@ == percent_decoded(raw@),
{
    url::percent_encoding::percent_decode(raw).collect()
}

/// The text `/index.html`.
pub open spec fn index_html_path() -> Seq<u8> {
    seq![47u8, 105u8, 110u8, 100u8, 101u8, 120u8, 46u8, 104u8, 116u8, 109u8, 108u8]
}

fn index_html_bytes() -> (r: Vec<u8>)
    ensures
        r@ == index_html_path(),
{
    let mut r: Vec<u8> = Vec::new();
    r.push(47u8);
    r.push(105u8);
    r.push(110u8);
    r.push(100u8);
    r.push(101u8);
    r.push(120u8);
    r.push(46u8);
    r.push(104u8);
    r.push(116u8);
    r.push(109u8);
    r.push(108u8);
    assert(r@ =~= index_html_path());
    r
}

/// The request methods that the service tells apart.
#[derive(Debug, Clone, Copy, PartialEq, Eq, Structural)]
pub enum Method {
    Get,
    Post,
    Other,
}

/// What a request asks for.
pub enum Route {
    /// The listing page.
    Index,
    /// The listed file of that name.
    Download(Vec<u8>),
    /// An upload through the form.
    Upload,
    /// A path that names nothing.
    NotFound,
    /// A method that the service does not answer.
    NotAllowed,
}

/// What a route is in terms of the decoded path and the files listed. A
/// listed file is offered only where its name is safe to join to the root.
pub open spec fn route_spec(m: Method, path: Seq<u8>, files: Seq<(Seq<u8>, u64)>) -> RouteSpec {
    match m {
        Method::Get => if path == seq![SLASH] || path == index_html_path() {
            RouteSpec::Index
        } else if safe_name(path.skip(1)) && exists|i: int|
            0 <= i < files.len() && path == public_path(#[trigger] files[i].0) {
            RouteSpec::Download(path.skip(1))
        } else {
            RouteSpec::NotFound
        },
        Method::Post => if path == seq![SLASH] {
            RouteSpec::Upload
        } else {
            RouteSpec::NotFound
        },
        Method::Other => RouteSpec::NotAllowed,
    }
}

pub ghost enum RouteSpec {
    Index,
    Download(Seq<u8>),
    Upload,
    NotFound,
    NotAllowed,
}

impl View for Route {
    type V = RouteSpec;

    open spec fn view(&self) -> RouteSpec {
        match self {
            Route::Index => RouteSpec::Index,
            Route::Download(n) => RouteSpec::Download(n@),
            Route::Upload => RouteSpec::Upload,
            Route::NotFound => RouteSpec::NotFound,
            Route::NotAllowed => RouteSpec::NotAllowed,
        }
    }
}

/// The status line and headers of a response, fixed before any body byte
/// is sent.
pub struct ResponseHead {
    pub status: u16,
    /// The exact body length, where it is known up front.
    pub content_length: Option<u64>,
    /// The file name under which the body is offered as an attachment.
    pub attachment_name: Option<Vec<u8>>,
    /// Where a redirect points.
    pub location: Option<Vec<u8>>,
}

/// Dispatches requests and derives the response heads.
pub struct RequestHandler {
    pub verbose: bool,
    pub directory: Directory,
}

impl RequestHandler {
    pub fn new(dir: Directory, verbose: bool) -> (r: RequestHandler)
        ensures
            r.verbose == verbose,
            r.directory.root@ == dir.root@,
    {
        RequestHandler { verbose, directory: dir }
    }

    /// Decides what a request with this method and raw (percent-encoded)
    /// path asks for, given the files listed now.
    pub fn route(&self, method: Method, raw_path: &[u8], index: &ResourceIndex) -> (r: Route)
        ensures
            r@ == route_spec(method, percent_decoded(raw_path@), index@),
    {
        let path = percent_decode_path(raw_path);
        let mut root: Vec<u8> = Vec::new();
        root.push(SLASH);
        assert(root@ =~= seq![SLASH]);
        match method {
            Method::Other => Route::NotAllowed,
            Method::Post => {
                if bytes_eq(path.as_slice(), root.as_slice()) {
                    Route::Upload
                } else {
                    Route::NotFound
                }
            },
            Method::Get => {
                let page = index_html_bytes();
                if bytes_eq(path.as_slice(), root.as_slice()) || bytes_eq(
                    path.as_slice(),
                    page.as_slice(),
                ) {
                    return Route::Index;
                }
                match index.get(path.as_slice()) {
                    Some(m) => {
                        if !is_safe_name(m.name.as_slice()) {
                            assert(m.name@ =~= path@.skip(1));
                            return Route::NotFound;
                        }
                        let mut name: Vec<u8> = Vec::new();
                        append_bytes(&mut name, m.name.as_slice());
                        assert(name@ =~= path@.skip(1));
                        Route::Download(name)
                    },
                    None => Route::NotFound,
                }
            },
        }
    }

    /// Where a finished upload is to be moved: the checked path of the file
    /// name that the form gave. A failed form keeps its error; an unsafe
    /// name is refused.
    pub fn upload_target(&self, outcome: &Result<FormUpload, ServeError>) -> (r: Result<
        Vec<u8>,
        ServeError,
    >)
        ensures
            outcome is Err ==> r == Err::<Vec<u8>, ServeError>(outcome->Err_0),
            outcome is Ok && safe_name(outcome->Ok_0.name@) ==> r is Ok && r->Ok_0@ == dir_prefix(
                self.directory.root@,
            ) + outcome->Ok_0.name@,
            outcome is Ok && !safe_name(outcome->Ok_0.name@) ==> r == Err::<Vec<u8>, ServeError>(
                ServeError::NotFoundError,
            ),
    {
        match outcome {
            Ok(u) => self.directory.full_path(u.name.as_slice()),
            Err(e) => Err(*e),
        }
    }

    /// The head of a download of the file `name`, which had `len` bytes
    /// when it was opened.
    pub fn download_head(&self, name: &[u8], len: u64) -> (r: ResponseHead)
        ensures
            r.status == 200,
            r.content_length == Some(len),
            r.attachment_name is Some && r.attachment_name->Some_0@ == name@,
            r.location is None,
    {
        let mut n: Vec<u8> = Vec::new();
        append_bytes(&mut n, name);
        ResponseHead { status: 200, content_length: Some(len), attachment_name: Some(n), location: None }
    }

    /// The head of the answer to an upload: a redirect to the listing when
    /// it was stored, else the error's status and no redirect.
    pub fn upload_head(&self, outcome: &Result<u64, ServeError>) -> (r: ResponseHead)
        ensures
            outcome is Ok ==> r.status == 302 && r.location is Some && r.location->Some_0@ == seq![
                SLASH,
            ],
            outcome is Err ==> r.status == status_of(outcome->Err_0) && r.location is None,
            r.attachment_name is None,
            r.content_length is None,
    {
        match outcome {
            Ok(_) => {
                let mut loc: Vec<u8> = Vec::new();
                loc.push(SLASH);
                assert(loc@ =~= seq![SLASH]);
                ResponseHead {
                    status: 302,
                    content_length: None,
                    attachment_name: None,
                    location: Some(loc),
                }
            },
            Err(e) => ResponseHead {
                status: e.status_code(),
                content_length: None,
                attachment_name: None,
                location: None,
            },
        }
    }

    /// The head of an answer that carries only an error status.
    pub fn error_head(&self, e: ServeError) -> (r: ResponseHead)
        ensures
            r.status == status_of(e),
            r.content_length is None && r.attachment_name is None && r.location is None,
    {
        ResponseHead {
            status: e.status_code(),
            content_length: None,
            attachment_name: None,
            location: None,
        }
    }
}

} // verus!
