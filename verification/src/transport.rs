//! Where downloads come from.
//!
//! The download pipeline asks a [`Transport`] for the image and for its
//! digest file.  Over the network that is an HTTP client; [`MemoryTransport`]
//! serves pages held in memory.

use crate::flash::verify::MemoryReader;
use crate::flash::verify::VerificationReader;
use crate::store::copy_bytes;
use crate::text::same_text;
use vstd::prelude::*;

verus! {

/// What a server holds under a URL.
pub struct Page {
    /// HTTP status of the answer.
    pub status: u16,
    /// Length of the body as the server declares it, if it does.
    pub declared_length: Option<u64>,
    /// The body.
    pub body: Seq<u8>,
    /// The body read as text.
    pub text: Seq<char>,
}

/// Does the status say that the request succeeded (200 to 299)?
pub open spec fn is_success(status: u16) -> bool {
    200 <= status <= 299
}

/// Is the HTTP status one of success?
pub fn status_is_success(status: u16) -> (success: bool)
    ensures
        success == is_success(status),
{
    200 <= status && status <= 299
}

/// The answer to a request for a file: its head, and its body still to be
/// read.
pub struct Response<B> {
    pub status: u16,
    pub content_length: Option<u64>,
    pub body: B,
}

/// The answer to a request for a text.
pub struct TextResponse {
    pub status: u16,
    pub text: String,
}

/// A way to fetch what URLs name.
pub trait Transport {
    /// What the body of an answer is read through.
    type Body: VerificationReader;

    /// What the server holds under `url`, if it answers at all.  Of a
    /// transport that does not say, nothing is known.
    open spec fn page(&self, url: Seq<char>) -> Option<Page> {
        arbitrary()
    }

    /// Can a request fail although the server would answer?  Unless a
    /// transport says otherwise, it can.
    open spec fn can_fail(&self) -> bool {
        true
    }

    /// The URLs that were requested through this transport, first to last,
    /// whatever came of the requests.  Of a transport that does not say,
    /// nothing is known.
    open spec fn requested(&self) -> Seq<Seq<char>> {
        arbitrary()
    }

    /// Requests `url` and returns the answer with its body unread.
    fn get(&mut self, url: &str) -> (result: Result<Response<Self::Body>, String>)
        ensures
            final(self).can_fail() == old(self).can_fail(),
            forall|other: Seq<char>| #[trigger] final(self).page(other) == old(self).page(other),
            final(self).requested() == old(self).requested().push(url@),
            match result {
                Ok(response) => {
                    &&& old(self).page(url@) is Some
                    &&& response.status == old(self).page(url@)->0.status
                    &&& response.content_length == old(self).page(url@)->0.declared_length
                    &&& response.body.passed() == Seq::<u8>::empty()
                    &&& response.body.remaining() == old(self).page(url@)->0.body
                    &&& response.body.intact()
                    &&& response.body.can_fail() ==> old(self).can_fail()
                },
                Err(_) => old(self).page(url@) is None || old(self).can_fail(),
            },
    ;

    /// Requests `url` and returns the answer with its body as text.
    fn get_text(&mut self, url: &str) -> (result: Result<TextResponse, String>)
        ensures
            final(self).can_fail() == old(self).can_fail(),
            forall|other: Seq<char>| #[trigger] final(self).page(other) == old(self).page(other),
            final(self).requested() == old(self).requested().push(url@),
            match result {
                Ok(response) => {
                    &&& old(self).page(url@) is Some
                    &&& response.status == old(self).page(url@)->0.status
                    &&& response.text@ == old(self).page(url@)->0.text
                },
                Err(_) => old(self).page(url@) is None || old(self).can_fail(),
            },
    ;
}

/// The two transports serve the same pages and fail alike: a request
/// changes nothing about what is served.
pub open spec fn serves_the_same<T: Transport + ?Sized>(before: &T, after: &T) -> bool {
    &&& after.can_fail() == before.can_fail()
    &&& forall|url: Seq<char>| #[trigger] after.page(url) == before.page(url)
}

/// A page of a [`MemoryTransport`].
#[derive(Debug)]
pub struct StoredPage {
    pub url: String,
    pub status: u16,
    pub body: Vec<u8>,
    pub text: String,
}

/// `i` is the first position whose page has the URL.
pub open spec fn is_first_page(pages: Seq<StoredPage>, url: Seq<char>, i: int) -> bool {
    &&& 0 <= i < pages.len()
    &&& pages[i].url@ == url
    &&& forall|j: int| 0 <= j < i ==> pages[j].url@ != url
}

/// The page served under `url`: the first of that URL.
pub open spec fn served(pages: Seq<StoredPage>, url: Seq<char>) -> Option<Page> {
    if exists|i: int| is_first_page(pages, url, i) {
        let i = choose|i: int| is_first_page(pages, url, i);
        Some(
            Page {
                status: pages[i].status,
                declared_length: if pages[i].body@.len() <= u64::MAX {
                    Some(pages[i].body@.len() as u64)
                } else {
                    None
                },
                body: pages[i].body@,
                text: pages[i].text@,
            },
        )
    } else {
        None
    }
}

/// A transport that serves pages held in memory.  A request fails only for
/// a URL that it has no page for.
#[derive(Debug)]
pub struct MemoryTransport {
    pages: Vec<StoredPage>,
    requests: Vec<String>,
}

impl MemoryTransport {
    /// A transport without pages, through which nothing was requested yet.
    pub fn new() -> (transport: MemoryTransport)
        ensures
            forall|url: Seq<char>| transport.page(url) is None,
            transport.requested() == Seq::<Seq<char>>::empty(),
    {
        let transport = MemoryTransport { pages: Vec::new(), requests: Vec::new() };
        proof {
            assert(transport.requested() =~= Seq::<Seq<char>>::empty());
            assert forall|url: Seq<char>| transport.page(url) is None by {
                assert(!exists|i: int| is_first_page(transport.pages@, url, i));
            }
        }
        transport
    }

    /// Serves `body` under `url` with the given status from now on, unless
    /// a page of that URL is served already.
    pub fn serve(&mut self, url: &str, status: u16, body: Vec<u8>, text: &str)
        ensures
            old(self).page(url@) is None ==> final(self).page(url@) == Some(
                Page {
                    status: status,
                    declared_length: if body@.len() <= u64::MAX {
                        Some(body@.len() as u64)
                    } else {
                        None
                    },
                    body: body@,
                    text: text@,
                },
            ),
            old(self).page(url@) is Some ==> final(self).page(url@) == old(self).page(url@),
            forall|other: Seq<char>|
                other != url@ ==> final(self).page(other) == old(self).page(other),
            final(self).requested() == old(self).requested(),
    {
        let ghost before = self.pages@;
        let page = StoredPage { url: url.to_owned(), status, body, text: text.to_owned() };
        self.pages.push(page);
        proof {
            let after = self.pages@;
            assert forall|other: Seq<char>, i: int|
                is_first_page(before, other, i) implies is_first_page(after, other, i) by {
                assert(after[i] == before[i]);
                assert forall|j: int| 0 <= j < i implies after[j].url@ != other by {
                    assert(after[j] == before[j]);
                }
            }
            assert forall|other: Seq<char>, i: int|
                is_first_page(after, other, i) && i < before.len() implies is_first_page(
                before,
                other,
                i,
            ) by {
                assert(after[i] == before[i]);
                assert forall|j: int| 0 <= j < i implies before[j].url@ != other by {
                    assert(after[j] == before[j]);
                }
            }
            assert forall|other: Seq<char>|
                other != url@ || served(before, other) is Some implies served(after, other)
                == served(before, other) by {
                if exists|i: int| is_first_page(before, other, i) {
                    let i = choose|i: int| is_first_page(before, other, i);
                    assert(is_first_page(after, other, i));
                    let k = choose|k: int| is_first_page(after, other, k);
                    lemma_first_page_unique(after, other, i, k);
                    assert(after[i] == before[i]);
                } else {
                    if exists|k: int| is_first_page(after, other, k) {
                        let k = choose|k: int| is_first_page(after, other, k);
                        if k < before.len() {
                            assert(is_first_page(before, other, k));
                        } else {
                            assert(after[k].url@ == url@);
                        }
                    }
                }
            }
            if served(before, url@) is None {
                let last = before.len() as int;
                assert(is_first_page(after, url@, last)) by {
                    assert forall|j: int| 0 <= j < last implies after[j].url@ != url@ by {
                        if after[j].url@ == url@ {
                            assert(before[j] == after[j]);
                            lemma_some_page_has_first(before, url@, j);
                        }
                    }
                }
                let k = choose|k: int| is_first_page(after, url@, k);
                lemma_first_page_unique(after, url@, last, k);
            }
        }
    }

    /// The URLs that were requested, first to last.
    pub fn requests(&self) -> (urls: &Vec<String>)
        ensures
            urls@.len() == self.requested().len(),
            forall|i: int| 0 <= i < urls@.len() ==> (#[trigger] urls@[i])@ == self.requested()[i],
    {
        &self.requests
    }

    fn note(&mut self, url: &str)
        ensures
            final(self).pages == old(self).pages,
            final(self).requested() == old(self).requested().push(url@),
    {
        self.requests.push(url.to_owned());
        proof {
            assert(self.requested() =~= old(self).requested().push(url@));
        }
    }

    fn find(&self, url: &str) -> (at: Option<usize>)
        ensures
            match at {
                Some(i) => is_first_page(self.pages@, url@, i as int),
                None => served(self.pages@, url@) is None,
            },
    {
        let mut i: usize = 0;
        while i < self.pages.len()
            invariant
                0 <= i <= self.pages.len(),
                forall|j: int| 0 <= j < i ==> self.pages[j].url@ != url@,
            decreases self.pages.len() - i,
        {
            if same_text(self.pages[i].url.as_str(), url) {
                return Some(i);
            }
            i += 1;
        }
        proof {
            assert(!exists|k: int| is_first_page(self.pages@, url@, k));
        }
        None
    }
}

/// At most one position is the first page of a URL.
pub proof fn lemma_first_page_unique(pages: Seq<StoredPage>, url: Seq<char>, a: int, b: int)
    requires
        is_first_page(pages, url, a),
        is_first_page(pages, url, b),
    ensures
        a == b,
{
    if a < b {
        assert(pages[a].url@ != url);
    } else if b < a {
        assert(pages[b].url@ != url);
    }
}

/// Where some page has the URL, a first one has it.
pub proof fn lemma_some_page_has_first(pages: Seq<StoredPage>, url: Seq<char>, k: int)
    requires
        0 <= k < pages.len(),
        pages[k].url@ == url,
    ensures
        exists|i: int| is_first_page(pages, url, i),
    decreases k,
{
    if exists|j: int| 0 <= j < k && pages[j].url@ == url {
        let j = choose|j: int| 0 <= j < k && pages[j].url@ == url;
        lemma_some_page_has_first(pages, url, j);
    } else {
        assert(is_first_page(pages, url, k));
    }
}

impl Transport for MemoryTransport {
    type Body = MemoryReader;

    closed spec fn page(&self, url: Seq<char>) -> Option<Page> {
        served(self.pages@, url)
    }

    open spec fn can_fail(&self) -> bool {
        false
    }

    closed spec fn requested(&self) -> Seq<Seq<char>> {
        Seq::new(self.requests@.len(), |i: int| self.requests@[i]@)
    }

    fn get(&mut self, url: &str) -> (result: Result<Response<MemoryReader>, String>) {
        self.note(url);
        match self.find(url) {
            Some(i) => {
                proof {
                    let k = choose|k: int| is_first_page(self.pages@, url@, k);
                    lemma_first_page_unique(self.pages@, url@, i as int, k);
                }
                let n: usize = self.pages[i].body.len();
                let content_length: Option<u64> = if n as u128 <= u64::MAX as u128 {
                    Some(n as u64)
                } else {
                    None
                };
                Ok(
                    Response {
                        status: self.pages[i].status,
                        content_length,
                        body: MemoryReader::new(copy_bytes(&self.pages[i].body)),
                    },
                )
            },
            None => Err("no route to host".to_owned()),
        }
    }

    fn get_text(&mut self, url: &str) -> (result: Result<TextResponse, String>) {
        self.note(url);
        match self.find(url) {
            Some(i) => {
                proof {
                    let k = choose|k: int| is_first_page(self.pages@, url@, k);
                    lemma_first_page_unique(self.pages@, url@, i as int, k);
                }
                Ok(TextResponse { status: self.pages[i].status, text: self.pages[i].text.clone() })
            },
            None => Err("no route to host".to_owned()),
        }
    }
}

} // verus!
