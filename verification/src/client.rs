//! The storage client.
//!
//! Once a session is ready, documents are read and written with plain
//! authenticated requests against the resolved storage path. The client is
//! stateless: it renders each request — method, URL, bearer authorization,
//! and for writes the body and content type — and interprets each response
//! status; the transport around it only carries those values.

use vstd::prelude::*;
use vstd::string::StringExecFns;

verus! {

/// The request method of a document transfer.
#[derive(Debug, Clone, Copy, PartialEq, Eq, Structural)]
pub enum Method {
    Get,
    Put,
}

/// Why a document transfer failed: the document is absent (a distinguished,
/// non-fatal outcome), the server answered with another status, or the
/// transport failed.
#[derive(Debug, Clone, Copy, PartialEq, Eq, Structural)]
pub enum StorageError {
    NotFound,
    Remote(u16),
    Network,
}

/// One opaque document: content bytes and their content type. The entity
/// tag is accepted in the model but not used by the client: no conditional
/// requests are made.
pub struct Document {
    pub etag: Option<String>,
    pub content: Vec<u8>,
    pub content_type: String,
}

/// A document, at the specification level.
pub struct DocumentV {
    pub etag: Option<Seq<char>>,
    pub content: Seq<u8>,
    pub content_type: Seq<char>,
}

impl View for Document {
    type V = DocumentV;

    open spec fn view(&self) -> DocumentV {
        DocumentV {
            etag: match self.etag {
                Some(ref e) => Some(e@),
                None => None,
            },
            content: self.content@,
            content_type: self.content_type@,
        }
    }
}

/// One rendered document request, for the transport to perform.
pub struct HttpRequest {
    pub method: Method,
    pub url: String,
    pub authorization: String,
    pub content_type: Option<String>,
    pub body: Option<Vec<u8>>,
}

/// A rendered request, at the specification level.
pub struct HttpRequestV {
    pub method: Method,
    pub url: Seq<char>,
    pub authorization: Seq<char>,
    pub content_type: Option<Seq<char>>,
    pub body: Option<Seq<u8>>,
}

impl View for HttpRequest {
    type V = HttpRequestV;

    open spec fn view(&self) -> HttpRequestV {
        HttpRequestV {
            method: self.method,
            url: self.url@,
            authorization: self.authorization@,
            content_type: match self.content_type {
                Some(ref c) => Some(c@),
                None => None,
            },
            body: match self.body {
                Some(ref b) => Some(b@),
                None => None,
            },
        }
    }
}

/// A ready client: the resolved storage path and the access token, with the
/// inputs they were resolved from. Write-once: a new session makes a new
/// client.
pub struct Client {
    pub webfinger_root_uri: String,
    pub username: String,
    pub scope: String,
    pub client_id: String,
    pub server_path: String,
    pub access_token: String,
    pub debug: bool,
}

/// A client, at the specification level.
pub struct ClientV {
    pub webfinger_root_uri: Seq<char>,
    pub username: Seq<char>,
    pub scope: Seq<char>,
    pub client_id: Seq<char>,
    pub server_path: Seq<char>,
    pub access_token: Seq<char>,
    pub debug: bool,
}

impl View for Client {
    type V = ClientV;

    open spec fn view(&self) -> ClientV {
        ClientV {
            webfinger_root_uri: self.webfinger_root_uri@,
            username: self.username@,
            scope: self.scope@,
            client_id: self.client_id@,
            server_path: self.server_path@,
            access_token: self.access_token@,
            debug: self.debug,
        }
    }
}

/// The authorization header value: the bearer scheme with the access token.
pub open spec fn bearer_spec(token: Seq<char>) -> Seq<char> {
    "Bearer "@ + token
}

/// The GET request for the document under `path`: the path under the
/// client's storage path, with bearer authorization and no body.
pub open spec fn get_request_spec(c: ClientV, path: Seq<char>) -> HttpRequestV {
    HttpRequestV {
        method: Method::Get,
        url: c.server_path + path,
        authorization: bearer_spec(c.access_token),
        content_type: None,
        body: None,
    }
}

/// The PUT request that writes `d` under `path`: the document's bytes as
/// the body and its content type as the header.
pub open spec fn put_request_spec(c: ClientV, path: Seq<char>, d: DocumentV) -> HttpRequestV {
    HttpRequestV {
        method: Method::Put,
        url: c.server_path + path,
        authorization: bearer_spec(c.access_token),
        content_type: Some(d.content_type),
        body: Some(d.content),
    }
}

/// What a GET response yields: a 200 body becomes the document, 404 is the
/// distinguished absence, and every other status is a remote failure.
pub open spec fn interpret_get_spec(status: u16, body: Seq<u8>, ct: Seq<char>) -> Result<
    DocumentV,
    StorageError,
> {
    if status == 200 {
        Ok(DocumentV { etag: None, content: body, content_type: ct })
    } else if status == 404 {
        Err(StorageError::NotFound)
    } else {
        Err(StorageError::Remote(status))
    }
}

/// What a PUT response yields: any 2xx status is success, every other
/// status a remote failure.
pub open spec fn interpret_put_spec(status: u16) -> Result<(), StorageError> {
    if 200 <= status < 300 {
        Ok(())
    } else {
        Err(StorageError::Remote(status))
    }
}

impl Client {
    /// Assembles a ready client from a resolved session's parts.
    pub fn new(
        webfinger_root_uri: String,
        username: String,
        scope: String,
        client_id: String,
        server_path: String,
        access_token: String,
        debug: bool,
    ) -> (c: Self)
        ensures
            c@ == (ClientV {
                webfinger_root_uri: webfinger_root_uri@,
                username: username@,
                scope: scope@,
                client_id: client_id@,
                server_path: server_path@,
                access_token: access_token@,
                debug: debug,
            }),
    {
        Client {
            webfinger_root_uri,
            username,
            scope,
            client_id,
            server_path,
            access_token,
            debug,
        }
    }

    /// Renders the GET request for the document under `path`. The entity
    /// tag is accepted but unused: no conditional request is made.
    pub fn get_document(&self, path: &str, _etag: Option<String>) -> (r: HttpRequest)
        ensures
            r@ == get_request_spec(self@, path@),
    {
        let mut url = self.server_path.clone();
        url.append(path);
        HttpRequest {
            method: Method::Get,
            url,
            authorization: bearer_header(&self.access_token),
            content_type: None,
            body: None,
        }
    }

    /// Renders the PUT request that writes `document` under `path`.
    pub fn put_document(&self, path: &str, document: &Document) -> (r: HttpRequest)
        ensures
            r@ == put_request_spec(self@, path@, document@),
    {
        let mut url = self.server_path.clone();
        url.append(path);
        let mut body: Vec<u8> = Vec::new();
        let mut i: usize = 0;
        while i < document.content.len()
            invariant
                i <= document.content@.len(),
                body@ == document.content@.subrange(0, i as int),
            decreases document.content@.len() - i,
        {
            body.push(document.content[i]);
            i = i + 1;
            proof {
                assert(body@ =~= document.content@.subrange(0, i as int));
            }
        }
        proof {
            assert(body@ =~= document.content@);
        }
        HttpRequest {
            method: Method::Put,
            url,
            authorization: bearer_header(&self.access_token),
            content_type: Some(document.content_type.clone()),
            body: Some(body),
        }
    }
}

/// Renders the bearer authorization header value.
fn bearer_header(token: &String) -> (r: String)
    ensures
        r@ == bearer_spec(token@),
{
    let mut out = String::from_str("Bearer ");
    out.append(token.as_str());
    out
}

/// Interprets a GET response: status, body bytes and the content type
/// header.
pub fn interpret_get_response(status: u16, body: Vec<u8>, content_type: String) -> (r: Result<
    Document,
    StorageError,
>)
    ensures
        match r {
            Ok(d) => interpret_get_spec(status, body@, content_type@) == Ok::<
                DocumentV,
                StorageError,
            >(d@),
            Err(e) => interpret_get_spec(status, body@, content_type@) == Err::<
                DocumentV,
                StorageError,
            >(e),
        },
{
    if status == 200 {
        Ok(Document { etag: None, content: body, content_type })
    } else if status == 404 {
        Err(StorageError::NotFound)
    } else {
        Err(StorageError::Remote(status))
    }
}

/// Interprets a PUT response status.
pub fn interpret_put_response(status: u16) -> (r: Result<(), StorageError>)
    ensures
        r == interpret_put_spec(status),
{
    if 200 <= status && status < 300 {
        Ok(())
    } else {
        Err(StorageError::Remote(status))
    }
}

/// The counter document's bytes: the value in four big-endian bytes.
pub open spec fn counter_bytes_spec(v: i32) -> Seq<u8> {
    seq![
        (((v as u32) >> 24) & 0xFF) as u8,
        (((v as u32) >> 16) & 0xFF) as u8,
        (((v as u32) >> 8) & 0xFF) as u8,
        ((v as u32) & 0xFF) as u8,
    ]
}

/// The counter value held by a document's first four bytes, big-endian.
pub open spec fn counter_value_spec(bs: Seq<u8>) -> i32
    recommends
        bs.len() >= 4,
{
    (((bs[0] as u32) << 24) | ((bs[1] as u32) << 16) | ((bs[2] as u32) << 8) | (
    bs[3] as u32)) as i32
}

/// Renders a counter value as document bytes.
pub fn counter_bytes(v: i32) -> (r: Vec<u8>)
    ensures
        r@ == counter_bytes_spec(v),
{
    let u = v as u32;
    let mut r: Vec<u8> = Vec::new();
    r.push(((u >> 24) & 0xFF) as u8);
    r.push(((u >> 16) & 0xFF) as u8);
    r.push(((u >> 8) & 0xFF) as u8);
    r.push((u & 0xFF) as u8);
    proof {
        assert(r@ =~= counter_bytes_spec(v));
    }
    r
}

/// Reads the counter value from a document's bytes; `None` where fewer than
/// four bytes are there.
pub fn counter_value(content: &Vec<u8>) -> (r: Option<i32>)
    ensures
        content@.len() >= 4 ==> r == Some(counter_value_spec(content@)),
        content@.len() < 4 ==> r is None,
{
    if content.len() < 4 {
        return None;
    }
    let u: u32 = ((content[0] as u32) << 24) | ((content[1] as u32) << 16) | ((content[2] as u32)
        << 8) | (content[3] as u32);
    Some(u as i32)
}

/// The counter encoding reads back to the written value.
pub proof fn lemma_counter_round_trip(v: i32)
    ensures
        counter_value_spec(counter_bytes_spec(v)) == v,
{
    let bs = counter_bytes_spec(v);
    let u = v as u32;
    assert(((((u >> 24) & 0xFF) as u8 as u32) << 24) | ((((u >> 16) & 0xFF) as u8 as u32) << 16)
        | ((((u >> 8) & 0xFF) as u8 as u32) << 8) | ((u & 0xFF) as u8 as u32) == u)
        by (bit_vector);
    assert((v as u32) as i32 == v) by (bit_vector);
}

/// Round trip: the GET for a path targets the URL that the PUT for the same
/// path wrote to, and a 200 response that echoes what the PUT carried reads
/// back as a document with the written content bytes and content type.
pub proof fn lemma_put_get_round_trip(c: ClientV, path: Seq<char>, d: DocumentV)
    ensures
        put_request_spec(c, path, d).url == get_request_spec(c, path).url,
        interpret_get_spec(
            200,
            put_request_spec(c, path, d).body->0,
            put_request_spec(c, path, d).content_type->0,
        ) == Ok::<DocumentV, StorageError>(
            DocumentV { etag: None, content: d.content, content_type: d.content_type },
        ),
{
}

impl From<isize> for Document {
    /// The counter demo's document: the value's four big-endian bytes as
    /// plain text.
    fn from(input: isize) -> (r: Document)
        ensures
            r@.etag is None,
            r@.content == counter_bytes_spec(input as i32),
            r@.content_type == "text/plain"@,
    {
        Document {
            etag: None,
            content: counter_bytes(#[verifier::truncate] (input as i32)),
            content_type: String::from_str("text/plain"),
        }
    }
}

impl vstd::std_specs::convert::FromSpecImpl<isize> for Document {
    open spec fn obeys_from_spec() -> bool {
        false
    }

    open spec fn from_spec(t: isize) -> Document {
        arbitrary()
    }
}

} // verus!
