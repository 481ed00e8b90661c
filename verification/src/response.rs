//! What a request is answered with.
//!
//! `/stream-bytes/<n>` is answered with `n` bytes of fill; every other path
//! names a file below the root directory.

use vstd::prelude::*;
use vstd::string::*;
use vstd::utf8::*;

use crate::path::file_path;
use crate::text::parse_usize;

verus! {

broadcast use vstd::string::group_string_axioms;

/// Fill byte for stream-bytes responses.
pub const STREAM_BYTES_FILL: u8 = 0x57;

/// How the body of a response comes about.
#[derive(Debug)]
pub enum Route {
    /// So many fill bytes.
    StreamBytes(usize),
    /// The contents of the file, or of the index file in it if it is a
    /// directory.
    File(String),
}

/// What a [`Route`] stands for.
pub ghost enum RouteView {
    StreamBytes(nat),
    File(Seq<char>),
}

impl View for Route {
    type V = RouteView;

    open spec fn view(&self) -> RouteView {
        match *self {
            Route::StreamBytes(n) => RouteView::StreamBytes(n as nat),
            Route::File(p) => RouteView::File(p@),
        }
    }
}

/// How a request for `path` is answered: a count that is not a number counts
/// as zero.
pub open spec fn routed(path: Seq<char>, root: Seq<char>) -> RouteView {
    let prefix = "/stream-bytes/"@;
    if prefix.is_prefix_of(path) {
        match crate::text::parsed_usize(path.skip(prefix.len() as int)) {
            Some(n) => RouteView::StreamBytes(n),
            None => RouteView::StreamBytes(0),
        }
    } else {
        RouteView::File(crate::path::file_path_of(root, path))
    }
}

/// The rest of `s` behind `prefix`, if `s` starts with it.
pub(crate) fn strip_prefix(s: &str, prefix: &str) -> (r: Option<String>)
    ensures
        match r {
            Some(rest) => prefix@.is_prefix_of(s@) && rest@ == s@.skip(prefix@.len() as int),
            None => !prefix@.is_prefix_of(s@),
        },
{
    let a = crate::text::chars_of(s);
    let b = crate::text::chars_of(prefix);
    if b.len() > a.len() {
        return None;
    }
    let mut i: usize = 0;
    while i < b.len()
        invariant
            a@ == s@,
            b@ == prefix@,
            b@.len() <= a@.len(),
            i <= b@.len(),
            forall|k: int| 0 <= k < i ==> a@[k] == b@[k],
        decreases b@.len() - i,
    {
        if a[i] != b[i] {
            assert(s@.subrange(0, prefix@.len() as int)[i as int] != prefix@[i as int]);
            return None;
        }
        i = i + 1;
    }
    assert(prefix@ =~= s@.subrange(0, prefix@.len() as int));
    Some(s.substring_char(b.len(), a.len()).to_owned())
}

/// Decides how a request for `path` is answered.
pub fn route(path: &str, root: &str) -> (r: Route)
    ensures
        r@ == routed(path@, root@),
        match r {
            Route::StreamBytes(n) => {
                let prefix = "/stream-bytes/"@;
                let count = crate::text::parsed_usize(path@.skip(prefix.len() as int));
                &&& prefix.is_prefix_of(path@)
                &&& n == match count {
                    Some(n) => n as int,
                    None => 0,
                }
            },
            Route::File(file) => {
                &&& !"/stream-bytes/"@.is_prefix_of(path@)
                &&& file@ == crate::path::file_path_of(root@, path@)
            },
        },
{
    match strip_prefix(path, "/stream-bytes/") {
        Some(suffix) => match parse_usize(suffix.as_str()) {
            Some(n) => Route::StreamBytes(n),
            None => Route::StreamBytes(0),
        },
        None => Route::File(file_path(root, path)),
    }
}

/// The status and the body of a stream-bytes response of `n` bytes.
pub fn stream_bytes_response(n: usize) -> (r: (u16, Vec<u8>))
    requires
        n <= isize::MAX,
    ensures
        r.0 == 200,
        r.1@ == Seq::new(n as nat, |i: int| STREAM_BYTES_FILL),
        r.1@.len() == n,
        forall|i: int| 0 <= i < n ==> r.1@[i] == 0x57,
{
    let body: Vec<u8> = vec![STREAM_BYTES_FILL; n];
    assert(body@ =~= Seq::new(n as nat, |i: int| STREAM_BYTES_FILL));
    (200, body)
}

/// The body of the response for a file: its contents, or a note that there are
/// none.
pub open spec fn file_body(contents: Option<Seq<u8>>) -> Seq<u8> {
    match contents {
        Some(data) => data,
        None => encode_utf8("Not Found!\r\n"@),
    }
}

/// The bytes of a file that could be read.
pub open spec fn optional_bytes(contents: Option<Vec<u8>>) -> Option<Seq<u8>> {
    match contents {
        Some(data) => Some(data@),
        None => None,
    }
}

/// The status and the body of the response for a file that has these contents,
/// or that could not be read.
pub fn file_response(contents: Option<Vec<u8>>) -> (r: (u16, Vec<u8>))
    ensures
        r.0 == if contents is Some {
            200u16
        } else {
            404u16
        },
        r.1@ == file_body(optional_bytes(contents)),
        contents matches Some(data) ==> r.0 == 200 && r.1@ == data@,
        contents is None ==> r.0 == 404 && r.1@ == encode_utf8("Not Found!\r\n"@),
{
    match contents {
        Some(data) => (200, data),
        None => (404, vstd::slice::slice_to_vec("Not Found!\r\n".as_bytes())),
    }
}

/// Asking for `/stream-bytes/<n>` is asking for `n` bytes.
pub proof fn law_stream_bytes(n: usize, root: Seq<char>)
    ensures
        routed("/stream-bytes/"@ + crate::text::decimal(n as nat), root)
            == RouteView::StreamBytes(n as nat),
{
    let prefix = "/stream-bytes/"@;
    let digits = crate::text::decimal(n as nat);
    assert(prefix =~= (prefix + digits).subrange(0, prefix.len() as int));
    assert((prefix + digits).skip(prefix.len() as int) =~= digits);
    crate::text::law_decimal_round_trip(n);
}

/// A request that is answered with a file is answered with the root, one below
/// it, or the index file in one of these, if that has a name without slashes.
pub proof fn law_served_files_stay_below_root(path: Seq<char>, root: Seq<char>, index: Seq<char>)
    ensures
        routed(path, root) matches RouteView::File(file) ==> {
            &&& crate::path::is_below(root, file)
            &&& crate::path::is_name(index) ==> crate::path::is_below(
                root,
                crate::path::pushed(file, index),
            )
        },
{
    crate::path::law_files_stay_below_root(root, path, index);
}

/// A file is served whole: the body is its contents, byte for byte, of
/// whatever length, and a different file has a different body. In place of a
/// file that could not be read comes a note.
pub proof fn law_file_is_served_whole(data: Seq<u8>, other: Seq<u8>)
    ensures
        file_body(Some(data)).len() == data.len(),
        forall|i: int| 0 <= i < data.len() ==> #[trigger] file_body(Some(data))[i] == data[i],
        file_body(Some(data)) == file_body(Some(other)) ==> data == other,
        file_body(None) == encode_utf8("Not Found!\r\n"@),
{
    assert(file_body(Some(data)) =~= data);
    assert(file_body(Some(other)) =~= other);
}

/// Whatever follows `/stream-bytes/` is a count, or counts as none, and all
/// other paths name files; the root does not matter for the one, and the other
/// is the file that the path names below it.
pub proof fn law_paths_are_routed(path: Seq<char>, root: Seq<char>)
    ensures
        ({
            let asked = routed("/stream-bytes/"@ + path, root);
            match crate::text::parsed_usize(path) {
                Some(n) => asked == RouteView::StreamBytes(n),
                None => asked == RouteView::StreamBytes(0),
            }
        }),
        !"/stream-bytes/"@.is_prefix_of(path) ==> routed(path, root) == RouteView::File(
            crate::path::file_path_of(root, path),
        ),
{
    let prefix = "/stream-bytes/"@;
    assert(prefix =~= (prefix + path).subrange(0, prefix.len() as int));
    assert((prefix + path).skip(prefix.len() as int) =~= path);
}

} // verus!
