//! HTTP/3 header fields, and the fields of requests and responses.

use vstd::prelude::*;
use vstd::string::*;
use vstd::utf8::*;

use crate::text::decimal_string;
use crate::text::from_utf8_lossy;

verus! {

broadcast use vstd::string::group_string_axioms;

/// A header field.
#[derive(Debug)]
pub struct Header {
    pub name: Vec<u8>,
    pub value: Vec<u8>,
}

/// What a [`Header`] stands for.
#[verifier::ext_equal]
pub struct HeaderView {
    pub name: Seq<u8>,
    pub value: Seq<u8>,
}

impl View for Header {
    type V = HeaderView;

    open spec fn view(&self) -> HeaderView {
        HeaderView { name: self.name@, value: self.value@ }
    }
}

/// What a list of header fields stands for.
pub open spec fn fields(headers: Seq<Header>) -> Seq<HeaderView> {
    headers.map_values(|h: Header| h@)
}

/// The field with the given name and value, both as text.
pub open spec fn field(name: Seq<char>, value: Seq<char>) -> HeaderView {
    HeaderView { name: encode_utf8(name), value: encode_utf8(value) }
}

impl Header {
    /// The field with the given name and value.
    pub fn new(name: &[u8], value: &[u8]) -> (r: Self)
        ensures
            r@ == (HeaderView { name: name@, value: value@ }),
            r.name@ == name@,
            r.value@ == value@,
    {
        Header {
            name: vstd::slice::slice_to_vec(name),
            value: vstd::slice::slice_to_vec(value),
        }
    }
}

/// The path that a request asks for: the first `:path` field, as text, or `/`
/// if there is none.
pub open spec fn requested_path(headers: Seq<HeaderView>) -> Seq<char>
    decreases headers.len(),
{
    if headers.len() == 0 {
        "/"@
    } else if headers.first().name == encode_utf8(":path"@) {
        crate::text::lossy_text(headers.first().value)
    } else {
        requested_path(headers.drop_first())
    }
}

/// The fields of a request for `path` at `host`.
pub open spec fn request_fields(host: Seq<char>, path: Seq<char>) -> Seq<HeaderView> {
    seq![
        field(":method"@, "GET"@),
        field(":scheme"@, "https"@),
        field(":authority"@, host),
        field(":path"@, path),
        field("user-agent"@, "lucas-qmux-break-rules-and-buy-me-sake/0.1"@),
    ]
}

/// The fields of a response with the given status and body length.
pub open spec fn response_fields(status: nat, body_len: nat) -> Seq<HeaderView> {
    seq![
        field(":status"@, crate::text::decimal(status)),
        field("server"@, "qmux-demo"@),
        field("content-length"@, crate::text::decimal(body_len)),
    ]
}

/// A field as `name=value`.
pub open spec fn field_text(h: HeaderView) -> Seq<char> {
    crate::text::lossy_text(h.name) + "="@ + crate::text::lossy_text(h.value)
}

/// A list of fields, separated by commas.
pub open spec fn fields_text(headers: Seq<HeaderView>) -> Seq<char>
    decreases headers.len(),
{
    if headers.len() == 0 {
        Seq::empty()
    } else if headers.len() == 1 {
        field_text(headers[0])
    } else {
        fields_text(headers.drop_last()) + ", "@ + field_text(headers.last())
    }
}

fn same_bytes(a: &[u8], b: &[u8]) -> (r: bool)
    ensures
        r == (a@ == b@),
{
    if a.len() != b.len() {
        return false;
    }
    let mut i: usize = 0;
    while i < a.len()
        invariant
            a@.len() == b@.len(),
            i <= a@.len(),
            forall|k: int| 0 <= k < i ==> a@[k] == b@[k],
        decreases a@.len() - i,
    {
        if a[i] != b[i] {
            return false;
        }
        i = i + 1;
    }
    assert(a@ =~= b@);
    true
}

/// The path that a request asks for.
pub fn request_path(headers: &[Header]) -> (r: String)
    ensures
        r@ == requested_path(fields(headers@)),
{
    let mut i: usize = 0;
    assert(fields(headers@).skip(0) =~= fields(headers@));
    while i < headers.len()
        invariant
            i <= headers@.len(),
            requested_path(fields(headers@)) == requested_path(fields(headers@).skip(i as int)),
        decreases headers@.len() - i,
    {
        let h = &headers[i];
        let ghost rest = fields(headers@).skip(i as int);
        assert(rest.first() == h@);
        if same_bytes(h.name.as_slice(), ":path".as_bytes()) {
            return from_utf8_lossy(h.value.as_slice());
        }
        assert(rest.drop_first() =~= fields(headers@).skip(i + 1));
        i = i + 1;
    }
    "/".to_owned()
}

/// The fields of a request for `path` at `host`.
pub fn request_headers(host: &str, path: &str) -> (r: Vec<Header>)
    ensures
        fields(r@) == request_fields(host@, path@),
        r@.len() == 5,
        r@[0].name@ == encode_utf8(":method"@) && r@[0].value@ == encode_utf8("GET"@),
        r@[1].name@ == encode_utf8(":scheme"@) && r@[1].value@ == encode_utf8("https"@),
        r@[2].name@ == encode_utf8(":authority"@) && r@[2].value@ == encode_utf8(host@),
        r@[3].name@ == encode_utf8(":path"@) && r@[3].value@ == encode_utf8(path@),
        r@[4].name@ == encode_utf8("user-agent"@),
        r@[4].value@ == encode_utf8("lucas-qmux-break-rules-and-buy-me-sake/0.1"@),
{
    let r = vec![
        Header::new(":method".as_bytes(), "GET".as_bytes()),
        Header::new(":scheme".as_bytes(), "https".as_bytes()),
        Header::new(":authority".as_bytes(), host.as_bytes()),
        Header::new(":path".as_bytes(), path.as_bytes()),
        Header::new(
            "user-agent".as_bytes(),
            "lucas-qmux-break-rules-and-buy-me-sake/0.1".as_bytes(),
        ),
    ];
    assert(fields(r@) =~= request_fields(host@, path@));
    r
}

/// The fields of a response with the given status and body.
pub fn response_headers(status: u16, body: &[u8]) -> (r: Vec<Header>)
    ensures
        fields(r@) == response_fields(status as nat, body@.len()),
        r@.len() == 3,
        r@[0].name@ == encode_utf8(":status"@),
        r@[0].value@ == encode_utf8(crate::text::decimal(status as nat)),
        r@[1].name@ == encode_utf8("server"@) && r@[1].value@ == encode_utf8("qmux-demo"@),
        r@[2].name@ == encode_utf8("content-length"@),
        r@[2].value@ == encode_utf8(crate::text::decimal(body@.len())),
{
    let status_text = decimal_string(status as u64);
    let length_text = decimal_string(body.len() as u64);
    let r = vec![
        Header::new(":status".as_bytes(), status_text.as_str().as_bytes()),
        Header::new("server".as_bytes(), "qmux-demo".as_bytes()),
        Header::new("content-length".as_bytes(), length_text.as_str().as_bytes()),
    ];
    assert(fields(r@) =~= response_fields(status as nat, body@.len()));
    r
}

/// The fields as text, for a log.
pub fn format_headers(headers: &[Header]) -> (r: String)
    ensures
        r@ == fields_text(fields(headers@)),
{
    let mut r: String = String::new();
    let mut i: usize = 0;
    let ghost all = fields(headers@);
    assert(all.take(0) =~= Seq::empty());
    while i < headers.len()
        invariant
            all == fields(headers@),
            i <= headers@.len(),
            r@ == fields_text(all.take(i as int)),
        decreases headers@.len() - i,
    {
        if i > 0 {
            r.append(", ");
        }
        let ghost front = r@;
        let h = &headers[i];
        r.append(from_utf8_lossy(h.name.as_slice()).as_str());
        r.append("=");
        r.append(from_utf8_lossy(h.value.as_slice()).as_str());
        proof {
            let part = all.take(i + 1);
            assert(part.drop_last() =~= all.take(i as int));
            assert(part.last() == h@);
            assert(r@ =~= front + field_text(h@));
            if i == 0 {
                assert(front =~= Seq::empty());
                assert(part[0] == h@);
            }
        }
        i = i + 1;
    }
    assert(all.take(i as int) =~= all);
    r
}

/// The server finds the path that the client asked for.
pub proof fn law_request_path_round_trip(host: Seq<char>, path: Seq<char>)
    ensures
        requested_path(request_fields(host, path)) == path,
{
    let all = request_fields(host, path);
    reveal_with_fuel(requested_path, 5);
    assert(encode_utf8(":method"@) != encode_utf8(":path"@)) by {
        lemma_encode_utf8_injective(":method"@, ":path"@);
        reveal_strlit(":method");
        reveal_strlit(":path");
    }
    assert(encode_utf8(":scheme"@) != encode_utf8(":path"@)) by {
        lemma_encode_utf8_injective(":scheme"@, ":path"@);
        reveal_strlit(":scheme");
        reveal_strlit(":path");
    }
    assert(encode_utf8(":authority"@) != encode_utf8(":path"@)) by {
        lemma_encode_utf8_injective(":authority"@, ":path"@);
        reveal_strlit(":authority");
        reveal_strlit(":path");
    }
    assert(all.drop_first().drop_first().drop_first().first() == field(":path"@, path));
    assert(all.drop_first().drop_first().first() == field(":authority"@, host));
    assert(all.drop_first().first() == field(":scheme"@, "https"@));
    encode_utf8_valid_utf8(path);
    encode_utf8_decode_utf8(path);
}

/// The client can read the status and the length of the body off the fields of
/// a response.
pub proof fn law_response_fields_can_be_read(status: usize, body_len: usize)
    ensures
        crate::text::parsed_usize(
            crate::text::lossy_text(response_fields(status as nat, body_len as nat)[0].value),
        ) == Some(status as nat),
        crate::text::parsed_usize(
            crate::text::lossy_text(response_fields(status as nat, body_len as nat)[2].value),
        ) == Some(body_len as nat),
{
    crate::text::law_decimal_round_trip(status);
    crate::text::law_decimal_round_trip(body_len);
    encode_utf8_valid_utf8(crate::text::decimal(status as nat));
    encode_utf8_decode_utf8(crate::text::decimal(status as nat));
    encode_utf8_valid_utf8(crate::text::decimal(body_len as nat));
    encode_utf8_decode_utf8(crate::text::decimal(body_len as nat));
}

proof fn lemma_encode_utf8_injective(a: Seq<char>, b: Seq<char>)
    ensures
        encode_utf8(a) == encode_utf8(b) ==> a == b,
{
    encode_utf8_decode_utf8(a);
    encode_utf8_decode_utf8(b);
}

/// A list of fields stands for all its names and values, in order.
pub proof fn law_fields(headers: Seq<Header>)
    ensures
        fields(headers).len() == headers.len(),
        forall|i: int|
            0 <= i < headers.len() ==> (#[trigger] fields(headers)[i]).name == headers[i].name@
                && fields(headers)[i].value == headers[i].value@,
{
}

/// The first `:path` field of a request decides, wherever it stands and
/// whatever stands around it, and without one the request is for the root.
pub proof fn law_first_path_decides(headers: Seq<HeaderView>, i: int)
    requires
        0 <= i <= headers.len(),
        forall|j: int| 0 <= j < i ==> (#[trigger] headers[j]).name != encode_utf8(":path"@),
    ensures
        i < headers.len() && headers[i].name == encode_utf8(":path"@) ==> requested_path(headers)
            == crate::text::lossy_text(headers[i].value),
        i == headers.len() ==> requested_path(headers) == "/"@,
    decreases i,
{
    if i > 0 {
        assert(headers[0].name != encode_utf8(":path"@));
        let rest = headers.drop_first();
        assert forall|j: int| 0 <= j < i - 1 implies (#[trigger] rest[j]).name != encode_utf8(
            ":path"@,
        ) by {
            assert(rest[j] == headers[j + 1]);
        }
        law_first_path_decides(rest, i - 1);
    }
}

/// The text of a list of fields is that of each, name and value, in order and
/// separated by commas.
pub proof fn law_fields_text(headers: Seq<HeaderView>, h: HeaderView)
    ensures
        fields_text(Seq::<HeaderView>::empty()).len() == 0,
        ({
            let text = crate::text::lossy_text(h.name) + "="@ + crate::text::lossy_text(h.value);
            fields_text(headers.push(h)) == if headers.len() == 0 {
                text
            } else {
                fields_text(headers) + ", "@ + text
            }
        }),
{
    assert(headers.push(h).drop_last() =~= headers);
}

} // verus!
