//! Quotes and their wire format.
//!
//! A stored history entry is the text `{"price":"…","timestamp":"…"}` with
//! both fields carried verbatim.  The format deliberately has no escape
//! sequences: a quote is only ever built from *plain* strings (no quote, no
//! backslash, no control character), and anything a reader cannot account
//! for character by character is rejected, which replay then skips.

use vstd::prelude::*;
use vstd::string::StrSliceExecFns;
use vstd::string::StringExecFns;

verus! {

/// Relies on `alloc::string::String::push`: appends the given `char` to the
/// end of this `String`.
pub assume_specification[ String::push ](s: &mut String, ch: char)
    ensures
        final(s)@ == old(s)@ + seq![ch],
;

/// A character the wire format can carry verbatim inside a quoted field:
/// not a quote, not a backslash, not a control character.
pub open spec fn plain_json_char(c: char) -> bool {
    c != '"' && c != '\\' && c as u32 >= 0x20
}

/// A string made of plain characters only.
pub open spec fn plain_json_str(s: Seq<char>) -> bool {
    forall|i: int| 0 <= i < s.len() ==> plain_json_char(#[trigger] s[i])
}

/// The sentinel that stands in for a price (or other field) that could not
/// be extracted or carried: the literal text `N/A`.
pub open spec fn spec_sentinel() -> Seq<char> {
    "N/A"@
}

pub proof fn lemma_sentinel_plain()
    ensures
        plain_json_str(spec_sentinel()),
        spec_sentinel().len() == 3,
{
    reveal_strlit("N/A");
    assert forall|i: int| 0 <= i < spec_sentinel().len() implies plain_json_char(
        #[trigger] spec_sentinel()[i],
    ) by {
        if i == 0 {
            assert(spec_sentinel()[0] == 'N');
        } else if i == 1 {
            assert(spec_sentinel()[1] == '/');
        } else {
            assert(spec_sentinel()[2] == 'A');
        }
    }
}

/// A field value as the pipeline will carry it: the value itself when it is
/// plain, the sentinel otherwise.
pub open spec fn spec_sanitize(s: Seq<char>) -> Seq<char> {
    if plain_json_str(s) {
        s
    } else {
        spec_sentinel()
    }
}

/// Whether every character of `s` is plain.
pub fn is_plain_str(s: &str) -> (r: bool)
    ensures
        r == plain_json_str(s@),
{
    let n = s.unicode_len();
    let mut i: usize = 0;
    while i < n
        invariant
            n == s@.len(),
            i <= n,
            forall|j: int| 0 <= j < i ==> plain_json_char(#[trigger] s@[j]),
        decreases n - i,
    {
        let c = s.get_char(i);
        if c == '"' || c == '\\' || (c as u32) < 0x20 {
            return false;
        }
        i += 1;
    }
    true
}

/// `s` itself when it is plain, the sentinel otherwise.
pub fn sanitize(s: &str) -> (r: String)
    ensures
        r@ == spec_sanitize(s@),
        plain_json_str(r@),
{
    proof {
        lemma_sentinel_plain();
    }
    if is_plain_str(s) {
        s.to_owned()
    } else {
        String::from_str("N/A")
    }
}

/// One observed quote: the price as decimal text (or the sentinel) and the
/// formatted observation time.  Both fields of a well-formed quote are
/// plain, so the wire format can carry them verbatim.
pub struct Quote {
    pub price: String,
    pub timestamp: String,
}

impl Quote {
    pub open spec fn wf(self) -> bool {
        plain_json_str(self.price@) && plain_json_str(self.timestamp@)
    }

    /// Build a quote, degrading each field to the sentinel if it is not
    /// plain; the result is always well formed.
    pub fn new(price: &str, timestamp: &str) -> (r: Quote)
        ensures
            r.price@ == spec_sanitize(price@),
            r.timestamp@ == spec_sanitize(timestamp@),
            r.wf(),
    {
        Quote { price: sanitize(price), timestamp: sanitize(timestamp) }
    }
}

/// The wire text of a quote with the given fields.
pub open spec fn spec_encode(price: Seq<char>, timestamp: Seq<char>) -> Seq<char> {
    "{\"price\":\""@ + price + "\",\"timestamp\":\""@ + timestamp + "\"}"@
}

/// Whether `s` is the wire text of some well-formed quote.
pub open spec fn spec_is_encoding(s: Seq<char>) -> bool {
    exists|p: Seq<char>, t: Seq<char>|
        plain_json_str(p) && plain_json_str(t) && s == spec_encode(p, t)
}

/// Serialize a quote to its wire text.
pub fn encode_quote(q: &Quote) -> (r: String)
    ensures
        r@ == spec_encode(q.price@, q.timestamp@),
{
    let mut r = String::from_str("{\"price\":\"");
    r.append(q.price.as_str());
    r.append("\",\"timestamp\":\"");
    r.append(q.timestamp.as_str());
    r.append("\"}");
    r
}

/// Where each part of the wire text of a plain (`p`, `t`) quote sits: the
/// opening frame is 10 characters, the middle frame 15, the closing frame 2;
/// the first quote character at or past position 10 closes the price field,
/// and the first quote character at or past position `25 + p.len()` closes
/// the timestamp field.
pub proof fn lemma_encoding_layout(s: Seq<char>, p: Seq<char>, t: Seq<char>)
    requires
        plain_json_str(p),
        plain_json_str(t),
        s == spec_encode(p, t),
    ensures
        s.len() == 27 + p.len() + t.len(),
        s[(10 + p.len()) as int] == '"',
        forall|j: int| 10 <= j < 10 + p.len() ==> s[j] == p[j - 10] && #[trigger] s[j] != '"',
        forall|j: int|
            25 + p.len() <= j < 25 + p.len() + t.len() ==> s[j] == t[j - 25 - p.len()]
                && #[trigger] s[j] != '"',
        s[(25 + p.len() + t.len()) as int] == '"',
{
    reveal_strlit("{\"price\":\"");
    reveal_strlit("\",\"timestamp\":\"");
    reveal_strlit("\"}");
    let pre = "{\"price\":\""@;
    let mid = "\",\"timestamp\":\""@;
    let suf = "\"}"@;
    assert(pre.len() == 10);
    assert(mid.len() == 15);
    assert(suf.len() == 2);
    assert(s[(10 + p.len()) as int] == mid[0]);
    assert(mid[0] == '"');
    assert forall|j: int| 10 <= j < 10 + p.len() implies s[j] == p[j - 10] && #[trigger] s[j]
        != '"' by {
        assert(s[j] == p[j - 10]);
        assert(plain_json_char(p[j - 10]));
    }
    assert forall|j: int| 25 + p.len() <= j < 25 + p.len() + t.len() implies s[j] == t[j - 25
        - p.len()] && #[trigger] s[j] != '"' by {
        assert(s[j] == t[j - 25 - p.len()]);
        assert(plain_json_char(t[j - 25 - p.len()]));
    }
    assert(s[(25 + p.len() + t.len()) as int] == suf[0]);
    assert(suf[0] == '"');
}

/// The wire format is unambiguous: equal texts mean equal fields.
pub proof fn lemma_encode_injective(p1: Seq<char>, t1: Seq<char>, p2: Seq<char>, t2: Seq<char>)
    requires
        plain_json_str(p1),
        plain_json_str(t1),
        plain_json_str(p2),
        plain_json_str(t2),
        spec_encode(p1, t1) == spec_encode(p2, t2),
    ensures
        p1 == p2,
        t1 == t2,
{
    let s = spec_encode(p1, t1);
    lemma_encoding_layout(s, p1, t1);
    lemma_encoding_layout(s, p2, t2);
    if p1.len() < p2.len() {
        assert(s[(10 + p1.len()) as int] == '"');
        assert(s[(10 + p1.len()) as int] != '"');
    } else if p2.len() < p1.len() {
        assert(s[(10 + p2.len()) as int] == '"');
        assert(s[(10 + p2.len()) as int] != '"');
    }
    assert(p1.len() == p2.len());
    assert(t1.len() == t2.len());
    assert forall|i: int| 0 <= i < p1.len() implies p1[i] == p2[i] by {
        assert(s[i + 10] == p1[i]);
        assert(s[i + 10] == p2[i]);
    }
    assert forall|i: int| 0 <= i < t1.len() implies t1[i] == t2[i] by {
        assert(s[25 + p1.len() as int + i] == t1[i]);
        assert(s[25 + p2.len() as int + i] == t2[i]);
    }
    assert(p1 =~= p2);
    assert(t1 =~= t2);
}

/// Every encoding of plain fields is recognized as one.
pub proof fn lemma_encoding_exists(p: Seq<char>, t: Seq<char>)
    requires
        plain_json_str(p),
        plain_json_str(t),
    ensures
        spec_is_encoding(spec_encode(p, t)),
{
}

/// The characters of `s`, in order, as a vector.
pub fn str_chars(s: &str) -> (v: Vec<char>)
    ensures
        v@ == s@,
{
    let n = s.unicode_len();
    let mut v: Vec<char> = Vec::new();
    let mut i: usize = 0;
    proof {
        assert(v@ =~= s@.take(0));
    }
    while i < n
        invariant
            n == s@.len(),
            i <= n,
            v@ == s@.take(i as int),
        decreases n - i,
    {
        let c = s.get_char(i);
        v.push(c);
        proof {
            assert(v@ =~= s@.take(i + 1));
        }
        i += 1;
    }
    proof {
        assert(s@.take(n as int) =~= s@);
    }
    v
}

/// The substring `v[from..to]` as a `String`.
fn chars_to_string(v: &Vec<char>, from: usize, to: usize) -> (r: String)
    requires
        from <= to <= v@.len(),
    ensures
        r@ == v@.subrange(from as int, to as int),
{
    let mut r = String::new();
    let mut i: usize = from;
    proof {
        assert(r@ =~= v@.subrange(from as int, from as int));
    }
    while i < to
        invariant
            from <= i <= to <= v@.len(),
            r@ == v@.subrange(from as int, i as int),
        decreases to - i,
    {
        r.push(v[i]);
        proof {
            assert(v@.subrange(from as int, i as int) + seq![v@[i as int]] =~= v@.subrange(
                from as int,
                i + 1,
            ));
        }
        i += 1;
    }
    r
}

/// Index of the first `"` at or past `from`, if any.
fn find_quote(v: &Vec<char>, from: usize) -> (r: Option<usize>)
    ensures
        match r {
            Some(i) => from <= i < v@.len() && v@[i as int] == '"' && forall|j: int|
                from <= j < i ==> #[trigger] v@[j] != '"',
            None => forall|j: int| from <= j < v@.len() ==> #[trigger] v@[j] != '"',
        },
{
    let n = v.len();
    let mut i: usize = from;
    while i < n
        invariant
            from <= i,
            n == v@.len(),
            forall|j: int| from <= j < i ==> #[trigger] v@[j] != '"',
        decreases n - i,
    {
        if v[i] == '"' {
            return Some(i);
        }
        i += 1;
    }
    None
}

/// Character-for-character string equality.
pub fn str_eq(a: &str, b: &str) -> (r: bool)
    ensures
        r == (a@ == b@),
{
    let na = a.unicode_len();
    let nb = b.unicode_len();
    if na != nb {
        return false;
    }
    let mut i: usize = 0;
    while i < na
        invariant
            na == a@.len(),
            na == b@.len(),
            i <= na,
            forall|j: int| 0 <= j < i ==> #[trigger] a@[j] == b@[j],
        decreases na - i,
    {
        if a.get_char(i) != b.get_char(i) {
            return false;
        }
        i += 1;
    }
    proof {
        assert(a@ =~= b@);
    }
    true
}

/// Parse wire text back into a quote.  Succeeds exactly on the texts that
/// `encode_quote` produces from well-formed quotes, and then returns the
/// fields that re-encode to the input; on anything else — truncated text,
/// stray characters, escape sequences — it returns `None`.
pub fn decode_quote(s: &str) -> (r: Option<Quote>)
    ensures
        match r {
            Some(q) => q.wf() && s@ == spec_encode(q.price@, q.timestamp@),
            None => !spec_is_encoding(s@),
        },
{
    let chars = str_chars(s);
    let n = chars.len();
    let ip = match find_quote(&chars, 10) {
        Some(i) => i,
        None => {
            proof {
                if spec_is_encoding(s@) {
                    let (p, t) = choose|p: Seq<char>, t: Seq<char>|
                        plain_json_str(p) && plain_json_str(t) && s@ == spec_encode(p, t);
                    lemma_encoding_layout(s@, p, t);
                    assert(false);
                }
            }
            return None;
        },
    };
    proof {
        if spec_is_encoding(s@) {
            let (p, t) = choose|p: Seq<char>, t: Seq<char>|
                plain_json_str(p) && plain_json_str(t) && s@ == spec_encode(p, t);
            lemma_encoding_layout(s@, p, t);
            if ip < 10 + p.len() {
                assert(s@[ip as int] != '"');
            }
            if ip > 10 + p.len() {
                assert(s@[(10 + p.len()) as int] != '"');
            }
            assert(ip == 10 + p.len());
        }
    }
    if n - ip < 15 {
        proof {
            if spec_is_encoding(s@) {
                let (p, t) = choose|p: Seq<char>, t: Seq<char>|
                    plain_json_str(p) && plain_json_str(t) && s@ == spec_encode(p, t);
                lemma_encoding_layout(s@, p, t);
                assert(false);
            }
        }
        return None;
    }
    let ts_start = ip + 15;
    let it = match find_quote(&chars, ts_start) {
        Some(i) => i,
        None => {
            proof {
                if spec_is_encoding(s@) {
                    let (p, t) = choose|p: Seq<char>, t: Seq<char>|
                        plain_json_str(p) && plain_json_str(t) && s@ == spec_encode(p, t);
                    lemma_encoding_layout(s@, p, t);
                    assert(s@[(25 + p.len() + t.len()) as int] == '"');
                    assert(false);
                }
            }
            return None;
        },
    };
    proof {
        if spec_is_encoding(s@) {
            let (p, t) = choose|p: Seq<char>, t: Seq<char>|
                plain_json_str(p) && plain_json_str(t) && s@ == spec_encode(p, t);
            lemma_encoding_layout(s@, p, t);
            if it < 25 + p.len() + t.len() {
                assert(s@[it as int] != '"');
            }
            if it > 25 + p.len() + t.len() {
                assert(s@[(25 + p.len() + t.len()) as int] != '"');
            }
            assert(it == 25 + p.len() + t.len());
        }
    }
    let price = chars_to_string(&chars, 10, ip);
    let timestamp = chars_to_string(&chars, ts_start, it);
    if !is_plain_str(price.as_str()) || !is_plain_str(timestamp.as_str()) {
        proof {
            if spec_is_encoding(s@) {
                let (p, t) = choose|p: Seq<char>, t: Seq<char>|
                    plain_json_str(p) && plain_json_str(t) && s@ == spec_encode(p, t);
                lemma_encoding_layout(s@, p, t);
                assert(price@ =~= p);
                assert(timestamp@ =~= t);
                assert(false);
            }
        }
        return None;
    }
    let q = Quote { price, timestamp };
    let e = encode_quote(&q);
    if str_eq(e.as_str(), s) {
        Some(q)
    } else {
        proof {
            if spec_is_encoding(s@) {
                let (p, t) = choose|p: Seq<char>, t: Seq<char>|
                    plain_json_str(p) && plain_json_str(t) && s@ == spec_encode(p, t);
                lemma_encoding_layout(s@, p, t);
                assert(q.price@ =~= p);
                assert(q.timestamp@ =~= t);
                assert(false);
            }
        }
        None
    }
}

} // verus!
