use vstd::prelude::*;

use crate::error::HlsError;
use crate::manifest::{opt_view, Ext, ExtView};
use crypto::buffer::{ReadBuffer, WriteBuffer};
use crypto::symmetriccipher::SymmetricCipherError;

verus! {

/// The initialisation vector used for every segment: sixteen zero bytes.
pub const IV: [u8; 16] = [0, 0, 0, 0, 0, 0, 0, 0, 0, 0, 0, 0, 0, 0, 0, 0];

pub open spec fn zero_iv() -> Seq<u8> {
    Seq::new(16, |i: int| 0u8)
}

#[verifier::external_type_specification]
#[verifier::external_body]
pub struct ExSymmetricCipherError(SymmetricCipherError);

/// The blocks that AES-128 in CBC mode recovers from `data` under `key` and
/// `iv`, padding still in place; `None` where `data` is not a whole number of
/// 16-byte blocks.
pub uninterp spec fn aes128_cbc_decrypt_raw(key: Seq<u8>, iv: Seq<u8>, data: Seq<u8>) -> Option<Seq<u8>>;

/// Relies on crypto::aes::cbc_decryptor (128-bit key, NoPadding) and its
/// `decrypt` with end of input: the decrypted blocks, or an error for data
/// that is not a whole number of blocks. The output buffer holds `data.len()`
/// bytes, exactly what a whole number of blocks decrypts to.
#[verifier::external_body]
fn cbc_decrypt(key: &[u8], iv: &[u8], data: &[u8]) -> (r: Result<Vec<u8>, SymmetricCipherError>)
    requires
        key@.len() == 16,
        iv@.len() == 16,
    ensures
        match r {
            Ok(v) => aes128_cbc_decrypt_raw(key@, iv@, data@) == Some(v@),
            Err(_) => aes128_cbc_decrypt_raw(key@, iv@, data@) is None,
        },
{
    let mut out = vec![0u8; data.len()];
    let mut write_buf = crypto::buffer::RefWriteBuffer::new(&mut out);
    let mut read_buf = crypto::buffer::RefReadBuffer::new(data);
    let mut dec = crypto::aes::cbc_decryptor(
        crypto::aes::KeySize::KeySize128, key, iv, crypto::blockmodes::NoPadding);
    dec.decrypt(&mut read_buf, &mut write_buf, true)?;
    Ok(write_buf.take_read_buffer().take_remaining().to_vec())
}

/// `p` carries valid PKCS#7 padding: it is not empty, its last byte `k` is
/// between 1 and 16 and no more than its length, and its last `k` bytes all
/// equal `k`.
pub open spec fn pkcs7_padded(p: Seq<u8>) -> bool {
    &&& p.len() > 0
    &&& 1 <= p.last() <= 16
    &&& p.last() as int <= p.len()
    &&& forall|i: int| p.len() - p.last() <= i < p.len() ==> #[trigger] p[i] == p.last()
}

/// `p` without its PKCS#7 padding; `None` where the padding is not valid.
pub open spec fn pkcs7_unpadded(p: Seq<u8>) -> Option<Seq<u8>> {
    if pkcs7_padded(p) {
        Some(p.take(p.len() - p.last()))
    } else {
        None
    }
}

/// Removes PKCS#7 padding from decrypted blocks.
pub fn pkcs7_unpad(p: &[u8]) -> (r: Option<Vec<u8>>)
    ensures
        match pkcs7_unpadded(p@) {
            Some(q) => r is Some && r->Some_0@ == q,
            None => r is None,
        },
{
    let n = p.len();
    if n == 0 {
        return None;
    }
    let k = p[n - 1];
    if k < 1 || k > 16 || k as usize > n {
        return None;
    }
    let start: usize = n - k as usize;
    let mut i: usize = start;
    while i < n
        invariant
            n == p@.len(),
            k == p@.last(),
            start == n - k,
            start <= i <= n,
            forall|j: int| start <= j < i ==> #[trigger] p@[j] == k,
        decreases n - i,
    {
        if p[i] != k {
            return None;
        }
        i = i + 1;
    }
    let mut q: Vec<u8> = Vec::new();
    let mut j: usize = 0;
    while j < start
        invariant
            start <= p@.len(),
            j <= start,
            q@ == p@.take(j as int),
        decreases start - j,
    {
        q.push(p[j]);
        assert(p@.take(j + 1) =~= p@.take(j as int).push(p@[j as int]));
        j = j + 1;
    }
    Some(q)
}

/// What decrypting `data` gives: the decrypted blocks without their PKCS#7
/// padding; `None` for a key or IV that is not 16 bytes long, for data that
/// is not a whole number of blocks, or for bad padding.
pub open spec fn decrypted(key: Seq<u8>, iv: Seq<u8>, data: Seq<u8>) -> Option<Seq<u8>> {
    if key.len() == 16 && iv.len() == 16 {
        match aes128_cbc_decrypt_raw(key, iv, data) {
            Some(raw) => pkcs7_unpadded(raw),
            None => None,
        }
    } else {
        None
    }
}

/// Decrypts one segment with AES-128-CBC and PKCS padding.
pub fn decrypt(key: &[u8], iv: &[u8], data: &[u8]) -> (r: Result<Vec<u8>, HlsError>)
    ensures
        match decrypted(key@, iv@, data@) {
            Some(p) => r is Ok && r->Ok_0@ == p,
            None => r == Err::<Vec<u8>, HlsError>(HlsError::Crypto),
        },
{
    if key.len() != 16 || iv.len() != 16 {
        return Err(HlsError::Crypto);
    }
    let raw = match cbc_decrypt(key, iv, data) {
        Ok(v) => v,
        Err(_) => return Err(HlsError::Crypto),
    };
    match pkcs7_unpad(raw.as_slice()) {
        Some(p) => Ok(p),
        None => Err(HlsError::Crypto),
    }
}

/// The URI of the key when segments are to be decrypted: a key line was seen
/// and both its METHOD and its URI are present and non-empty. A missing or
/// empty attribute means the segments are stored as they are.
pub open spec fn active_key_uri(e: ExtView) -> Option<Seq<char>> {
    match e.key {
        Some(k) => match (k.method, k.uri) {
            (Some(m), Some(u)) => if m.len() > 0 && u.len() > 0 {
                Some(u)
            } else {
                None
            },
            _ => None,
        },
        None => None,
    }
}

impl Ext {
    /// The key's URI when decryption is on, `None` when it is off.
    pub fn key_uri(&self) -> (r: Option<String>)
        ensures
            opt_view(r) == active_key_uri(self@),
    {
        match &self.key {
            Some(k) => match (&k.method, &k.uri) {
                (Some(m), Some(u)) => {
                    if !m.as_str().is_empty() && !u.as_str().is_empty() {
                        Some(u.clone())
                    } else {
                        None
                    }
                },
                _ => None,
            },
            None => None,
        }
    }
}

/// `a` followed by `b`.
fn concat_str(a: &str, b: &str) -> (r: String)
    ensures
        r@ == a@ + b@,
{
    let mut r = String::from_str(a);
    r.append(b);
    r
}

/// Where a segment is fetched from: `{domain_name}/{uri}`.
pub fn segment_location(domain_name: &str, uri: &str) -> (r: String)
    ensures
        r@ == domain_name@ + seq!['/'] + uri@,
{
    proof {
        reveal_strlit("/");
    }
    let with_slash = concat_str(domain_name, "/");
    concat_str(with_slash.as_str(), uri)
}

/// Where the key is fetched from: `{domain_name}{key_uri}`, with nothing
/// between the two.
pub fn key_location(domain_name: &str, key_uri: &str) -> (r: String)
    ensures
        r@ == domain_name@ + key_uri@,
{
    concat_str(domain_name, key_uri)
}

/// The output file: `{dir}/{file_name}{suffix}`.
pub fn output_path(dir: &str, file_name: &str, suffix: &str) -> (r: String)
    ensures
        r@ == dir@ + seq!['/'] + file_name@ + suffix@,
{
    let p = segment_location(dir, file_name);
    concat_str(p.as_str(), suffix)
}

/// What is written for one fetched segment: the bytes as they came without a
/// key, their decryption under the zero IV with one; `None` where that fails.
pub open spec fn processed(key: Option<Seq<u8>>, body: Seq<u8>) -> Option<Seq<u8>> {
    match key {
        None => Some(body),
        Some(k) => decrypted(k, zero_iv(), body),
    }
}

/// The bytes written for `bodies`, one segment after another in their order.
pub open spec fn output_of(key: Option<Seq<u8>>, bodies: Seq<Seq<u8>>) -> Seq<u8>
    decreases bodies.len(),
{
    if bodies.len() == 0 {
        Seq::empty()
    } else {
        output_of(key, bodies.drop_last()) + match processed(key, bodies.last()) {
            Some(p) => p,
            None => Seq::empty(),
        }
    }
}

/// Turns the bytes of one fetched segment into the bytes to write.
pub fn process_segment(key: Option<&[u8]>, body: Vec<u8>) -> (r: Result<Vec<u8>, HlsError>)
    ensures
        match processed(
            match key {
                Some(k) => Some(k@),
                None => None,
            },
            body@,
        ) {
            Some(p) => r is Ok && r->Ok_0@ == p,
            None => r == Err::<Vec<u8>, HlsError>(HlsError::Crypto),
        },
{
    match key {
        None => Ok(body),
        Some(k) => {
            let iv: &[u8] = &IV;
            assert(iv@ =~= zero_iv());
            decrypt(k, iv, body.as_slice())
        },
    }
}

pub ghost struct DownloadView {
    /// Full locations of the segments, in manifest order.
    pub segments: Seq<Seq<char>>,
    /// Where the key is still to be fetched from, before any segment.
    pub key_url: Option<Seq<char>>,
    /// The key once fetched.
    pub key: Option<Seq<u8>>,
    /// How many segments have been fetched and written.
    pub next: nat,
    pub failed: bool,
    /// The bodies of the segments fetched so far, in order.
    pub bodies: Seq<Seq<u8>>,
    /// Everything handed out to be written so far.
    pub written: Seq<u8>,
}

/// What the run asks for next: the key, then each segment in order; nothing
/// once all are done or after a failure.
pub open spec fn request_of(d: DownloadView) -> Option<Seq<char>> {
    if d.failed {
        None
    } else if d.key_url is Some {
        d.key_url
    } else if d.next < d.segments.len() {
        Some(d.segments[d.next as int])
    } else {
        None
    }
}

/// A run in progress: a pending key is fetched before any segment, the
/// segment bodies are one per segment done, and what was written is their
/// processed bytes in order.
pub open spec fn run_state_wf(v: DownloadView) -> bool {
    &&& v.next <= v.segments.len()
    &&& v.bodies.len() == v.next
    &&& v.key_url is Some ==> v.next == 0 && v.key is None
    &&& v.written == output_of(v.key, v.bodies)
}

pub open spec fn opt_bytes(o: Option<Vec<u8>>) -> Option<Seq<u8>> {
    match o {
        Some(b) => Some(b@),
        None => None,
    }
}

/// The run after the response `resp` to its pending request (`None` for a
/// failed fetch). Without a pending request nothing changes.
pub open spec fn step_of(d: DownloadView, resp: Option<Seq<u8>>) -> DownloadView {
    if request_of(d) is None {
        d
    } else {
        match resp {
            None => DownloadView { failed: true, ..d },
            Some(b) => if d.key_url is Some {
                DownloadView { key_url: None, key: Some(b), ..d }
            } else {
                match processed(d.key, b) {
                    Some(p) => DownloadView {
                        next: d.next + 1,
                        bodies: d.bodies.push(b),
                        written: d.written + p,
                        ..d
                    },
                    None => DownloadView { failed: true, ..d },
                }
            },
        }
    }
}

/// The run after the responses `rs`, taken in order.
pub open spec fn run_of(d: DownloadView, rs: Seq<Option<Seq<u8>>>) -> DownloadView
    decreases rs.len(),
{
    if rs.len() == 0 {
        d
    } else {
        step_of(run_of(d, rs.drop_last()), rs.last())
    }
}

/// The decisions of one download run: which resource to fetch next, and what
/// to write for each response. The caller performs the fetches and writes.
pub struct Download {
    segments: Vec<String>,
    key_url: Option<String>,
    key: Option<Vec<u8>>,
    next: usize,
    failed: bool,
    bodies: Ghost<Seq<Seq<u8>>>,
    written: Ghost<Seq<u8>>,
}

impl View for Download {
    type V = DownloadView;

    closed spec fn view(&self) -> DownloadView {
        DownloadView {
            segments: self.segments@.map_values(|s: String| s@),
            key_url: opt_view(self.key_url),
            key: match self.key {
                Some(k) => Some(k@),
                None => None,
            },
            next: self.next as nat,
            failed: self.failed,
            bodies: self.bodies@,
            written: self.written@,
        }
    }
}

impl Download {
    /// The state of a run in progress: a pending key is fetched before any
    /// segment, the segment bodies are one per segment done, and what was
    /// written is their processed bytes in order.
    pub open spec fn wf(&self) -> bool {
        run_state_wf(self@)
    }

    /// Starts the run for the segments of `ext`, resolved against `domain_name`.
    /// The key is to be fetched first exactly when `ext` turns decryption on.
    pub fn new(ext: &Ext, domain_name: &str) -> (r: Self)
        ensures
            r.wf(),
            r@.segments.len() == ext@.uri_list.len(),
            forall|i: int|
                0 <= i < ext@.uri_list.len() ==> #[trigger] r@.segments[i] == domain_name@
                    + seq!['/'] + ext@.uri_list[i],
            r@.key_url == match active_key_uri(ext@) {
                Some(u) => Some(domain_name@ + u),
                None => None,
            },
            r@.key is None,
            r@.next == 0,
            !r@.failed,
            r@.written == Seq::<u8>::empty(),
    {
        let mut segments: Vec<String> = Vec::new();
        let mut i: usize = 0;
        while i < ext.uri_list.len()
            invariant
                i <= ext.uri_list@.len(),
                segments@.len() == i,
                forall|j: int|
                    0 <= j < i ==> #[trigger] segments@[j]@ == domain_name@ + seq!['/']
                        + ext.uri_list@[j]@,
            decreases ext.uri_list.len() - i,
        {
            segments.push(segment_location(domain_name, ext.uri_list[i].as_str()));
            i = i + 1;
        }
        let key_url = match ext.key_uri() {
            Some(u) => Some(key_location(domain_name, u.as_str())),
            None => None,
        };
        let r = Download {
            segments,
            key_url,
            key: None,
            next: 0,
            failed: false,
            bodies: Ghost(Seq::empty()),
            written: Ghost(Seq::empty()),
        };
        r
    }

    /// The location to fetch next, if any.
    pub fn next_request(&self) -> (r: Option<String>)
        ensures
            opt_view(r) == request_of(self@),
    {
        if self.failed {
            None
        } else if let Some(u) = &self.key_url {
            Some(u.clone())
        } else if self.next < self.segments.len() {
            Some(self.segments[self.next].clone())
        } else {
            None
        }
    }

    /// `(segments done, segments in all)`.
    pub fn progress(&self) -> (r: (usize, usize))
        ensures
            r.0 == self@.next,
            r.1 == self@.segments.len(),
    {
        (self.next, self.segments.len())
    }

    /// Takes the outcome of the fetch that `next_request` asked for: its body,
    /// or `None` where it failed. Gives the bytes to append to the output now
    /// (none after the key), or the error that ends the run.
    pub fn on_response(&mut self, response: Option<Vec<u8>>) -> (r: Result<Vec<u8>, HlsError>)
        requires
            old(self).wf(),
            request_of(old(self)@) is Some,
        ensures
            final(self).wf(),
            final(self)@ == step_of(old(self)@, opt_bytes(response)),
            final(self)@.segments == old(self)@.segments,
            old(self)@.key_url is None ==> final(self)@.key_url is None && final(self)@.key
                == old(self)@.key,
            response is None ==> r == Err::<Vec<u8>, HlsError>(HlsError::Network),
            r is Err ==> final(self)@.failed && final(self)@.written == old(self)@.written
                && final(self)@.next == old(self)@.next,
            old(self)@.key_url is Some && response is Some ==> r is Ok && r->Ok_0@.len() == 0
                && final(self)@.key == Some(response->Some_0@) && final(self)@.key_url is None
                && final(self)@.next == 0 && !final(self)@.failed,
            old(self)@.key_url is None && response is Some ==> match processed(
                old(self)@.key,
                response->Some_0@,
            ) {
                Some(p) => r is Ok && r->Ok_0@ == p && final(self)@.next == old(self)@.next + 1
                    && !final(self)@.failed && final(self)@.written == old(self)@.written + p
                    && final(self)@.bodies == old(self)@.bodies.push(response->Some_0@),
                None => r == Err::<Vec<u8>, HlsError>(HlsError::Crypto),
            },
    {
        let body = match response {
            None => {
                self.failed = true;
                return Err(HlsError::Network);
            },
            Some(b) => b,
        };
        if self.key_url.is_some() {
            self.key_url = None;
            self.key = Some(body);
            return Ok(Vec::new());
        }
        assert(self@.segments.len() == self.segments@.len());
        assert(self.next < self.segments.len());
        let out = match &self.key {
            Some(k) => process_segment(Some(k.as_slice()), body.clone()),
            None => process_segment(None, body.clone()),
        };
        match out {
            Ok(p) => {
                let ghost old_bodies = self.bodies@;
                proof {
                    let nb = old_bodies.push(body@);
                    assert(nb.drop_last() =~= old_bodies);
                }
                self.bodies = Ghost(self.bodies@.push(body@));
                self.written = Ghost(self.written@ + p@);
                self.next = self.next + 1;
                Ok(p)
            },
            Err(e) => {
                self.failed = true;
                Err(e)
            },
        }
    }
}

/// With no key line, or with an empty METHOD or URI, no key is fetched and
/// every segment is written exactly as it was fetched.
pub proof fn lemma_no_key_passes_through(e: ExtView, body: Seq<u8>)
    requires
        e.key is None || e.key->Some_0.method == Some(Seq::<char>::empty())
            || e.key->Some_0.uri == Some(Seq::<char>::empty()),
    ensures
        active_key_uri(e) is None,
        processed(None, body) == Some(body),
{
}

/// After a failure nothing more is fetched, so nothing more is written.
pub proof fn lemma_no_request_after_failure(d: DownloadView)
    requires
        d.failed,
    ensures
        request_of(d) is None,
{
}

/// When every segment is done, the output is the processed content of each
/// segment, one after another in manifest order.
pub proof fn lemma_output_in_order(d: &Download)
    requires
        d.wf(),
        request_of(d@) is None,
        !d@.failed,
    ensures
        d@.bodies.len() == d@.segments.len(),
        d@.written == output_of(d@.key, d@.bodies),
{
}

/// Over any sequence of responses, what has been written is at every point
/// the processed content of the segments fetched so far, one after another
/// in manifest order; the segments fetched only ever grow at the end.
pub proof fn lemma_run_output_in_order(d: DownloadView, rs: Seq<Option<Seq<u8>>>)
    requires
        run_state_wf(d),
    ensures
        run_state_wf(run_of(d, rs)),
        run_of(d, rs).segments == d.segments,
        run_of(d, rs).bodies.len() >= d.bodies.len(),
        run_of(d, rs).bodies.subrange(0, d.bodies.len() as int) == d.bodies,
    decreases rs.len(),
{
    if rs.len() > 0 {
        lemma_run_output_in_order(d, rs.drop_last());
        let prev = run_of(d, rs.drop_last());
        let b = rs.last();
        if request_of(prev) is Some && b is Some && prev.key_url is None {
            let bodies = prev.bodies.push(b->Some_0);
            assert(bodies.drop_last() =~= prev.bodies);
            assert(bodies.subrange(0, d.bodies.len() as int) =~= prev.bodies.subrange(
                0,
                d.bodies.len() as int,
            ));
        }
    }
}

/// A response for each of `bs`, every fetch having succeeded.
pub open spec fn all_fetched(bs: Seq<Seq<u8>>) -> Seq<Option<Seq<u8>>> {
    bs.map_values(|b: Seq<u8>| Some(b))
}

/// Without a key, each fetched segment is written exactly as it came: after
/// the bodies `bs`, the output has grown by `bs` joined in order, and no key
/// is ever asked for.
pub proof fn lemma_run_without_key(d: DownloadView, bs: Seq<Seq<u8>>)
    requires
        run_state_wf(d),
        d.key_url is None,
        d.key is None,
        !d.failed,
        d.next + bs.len() <= d.segments.len(),
    ensures
        run_of(d, all_fetched(bs)).written == d.written + output_of(None, bs),
        run_of(d, all_fetched(bs)).next == d.next + bs.len(),
        run_of(d, all_fetched(bs)).key_url is None,
        run_of(d, all_fetched(bs)).key is None,
        run_of(d, all_fetched(bs)).segments == d.segments,
        !run_of(d, all_fetched(bs)).failed,
    decreases bs.len(),
{
    let ms = all_fetched(bs);
    if bs.len() == 0 {
        assert(ms.len() == 0);
        assert(output_of(None, bs) =~= Seq::<u8>::empty());
        assert(d.written + output_of(None, bs) =~= d.written);
    } else {
        let init = bs.drop_last();
        assert(ms.len() == bs.len());
        assert(ms.drop_last() =~= all_fetched(init));
        lemma_run_without_key(d, init);
        let prev = run_of(d, ms.drop_last());
        assert(run_of(d, ms) == step_of(prev, ms.last()));
        assert(ms.last() == Some(bs.last()));
        assert(prev.next < prev.segments.len());
        assert(request_of(prev) is Some);
        assert(processed(None, bs.last()) == Some(bs.last()));
        assert(output_of(None, bs) == output_of(None, init) + bs.last());
        assert(d.written + output_of(None, init) + bs.last() =~= d.written + (output_of(None, init)
            + bs.last()));
    }
}

/// Once a fetch fails, the run ends there: whatever responses follow, the
/// output holds exactly what was written before the failure and nothing more
/// is asked for.
pub proof fn lemma_failure_is_final(d: DownloadView, rs: Seq<Option<Seq<u8>>>, j: int)
    requires
        0 <= j < rs.len(),
        rs[j] is None,
        request_of(run_of(d, rs.take(j))) is Some,
    ensures
        run_of(d, rs) == (DownloadView { failed: true, ..run_of(d, rs.take(j)) }),
        request_of(run_of(d, rs)) is None,
    decreases rs.len(),
{
    if j < rs.len() - 1 {
        assert(rs.drop_last().take(j) =~= rs.take(j));
        lemma_failure_is_final(d, rs.drop_last(), j);
    } else {
        assert(rs.drop_last() =~= rs.take(j));
    }
}

} // verus!
