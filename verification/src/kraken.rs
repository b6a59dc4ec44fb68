//! Reading and classifying the market-data endpoint's response.
//!
//! The endpoint answers with a JSON object holding a `result` mapping and an
//! `error` list.  The reader below turns the response text into a [`Json`]
//! tree; classification then either rejects the response (`Decode` when the
//! expected shape is missing, `RemoteError` when the error list is
//! non-empty) or extracts a price: the first value of the `result` mapping,
//! its `c` field, that field's first element, as a string — and the sentinel
//! `N/A` wherever any of those steps is absent or of the wrong shape.  That
//! fallback is a deliberate lenient-degrade policy, not an error.

use vstd::prelude::*;
use vstd::string::StrSliceExecFns;
use vstd::string::StringExecFns;

use crate::quote::spec_sentinel;
use crate::quote::str_chars;
use crate::quote::str_eq;

verus! {

broadcast use vstd::seq::axiom_seq_index_decreases, vstd::seq::axiom_seq_subrange_decreases,
    vstd::std_specs::vec::axiom_vec_decreases_to_view;

/// The ticker request URL for a pair: the public endpoint with the pair
/// identifier as its query parameter.
pub open spec fn spec_ticker_url(pair: Seq<char>) -> Seq<char> {
    "https://api.kraken.com/0/public/Ticker?pair="@ + pair
}

/// Build the ticker request URL for `pair`.
pub fn ticker_url(pair: &str) -> (r: String)
    ensures
        r@ == spec_ticker_url(pair@),
{
    let mut r = String::from_str("https://api.kraken.com/0/public/Ticker?pair=");
    r.append(pair);
    r
}

/// A JSON value as this library reads it.  Numbers are kept as their raw
/// text; object fields keep document order.
pub enum Json {
    Null,
    Bool(bool),
    Num(String),
    Str(String),
    Arr(Vec<Json>),
    Obj(Vec<(String, Json)>),
}

/// A JSON value at the specification level: the same shape as [`Json`],
/// with text as character sequences and structure as mathematical
/// sequences, so that the reader's behavior can be stated as a function of
/// the response text alone.
pub enum JsonNode {
    Null,
    Bool(bool),
    Num(Seq<char>),
    Str(Seq<char>),
    Arr(Seq<JsonNode>),
    Obj(Seq<(Seq<char>, JsonNode)>),
}

/// The specification-level value of a parsed [`Json`] tree.
pub open spec fn node_of(v: Json) -> JsonNode
    decreases v,
    via node_of_dec
{
    match v {
        Json::Null => JsonNode::Null,
        Json::Bool(b) => JsonNode::Bool(b),
        Json::Num(s) => JsonNode::Num(s@),
        Json::Str(s) => JsonNode::Str(s@),
        Json::Arr(items) => JsonNode::Arr(nodes_of(items@)),
        Json::Obj(fields) => JsonNode::Obj(field_nodes_of(fields@)),
    }
}

/// The specification-level values of a list of array elements.
pub open spec fn nodes_of(items: Seq<Json>) -> Seq<JsonNode>
    decreases items,
    via nodes_of_dec
{
    if items.len() == 0 {
        Seq::empty()
    } else {
        seq![node_of(items[0])] + nodes_of(items.drop_first())
    }
}

/// The specification-level values of a list of object fields.
pub open spec fn field_nodes_of(fields: Seq<(String, Json)>) -> Seq<(Seq<char>, JsonNode)>
    decreases fields,
    via field_nodes_of_dec
{
    if fields.len() == 0 {
        Seq::empty()
    } else {
        seq![(fields[0].0@, node_of(fields[0].1))] + field_nodes_of(fields.drop_first())
    }
}

#[via_fn]
proof fn node_of_dec(v: Json) {
    match v {
        Json::Arr(items) => {
            assert(decreases_to!(v => items));
            assert(decreases_to!(items => items@));
        },
        Json::Obj(fields) => {
            assert(decreases_to!(v => fields));
            assert(decreases_to!(fields => fields@));
        },
        _ => {},
    }
}

#[via_fn]
proof fn nodes_of_dec(items: Seq<Json>) {
    if items.len() > 0 {
        assert(decreases_to!(items => items[0]));
        assert(items.drop_first() == items.subrange(1, items.len() as int));
        assert(decreases_to!(items => items.subrange(1, items.len() as int)));
    }
}

#[via_fn]
proof fn field_nodes_of_dec(fields: Seq<(String, Json)>) {
    if fields.len() > 0 {
        assert(decreases_to!(fields => fields[0]));
        assert(decreases_to!(fields[0] => fields[0].1));
        assert(fields.drop_first() == fields.subrange(1, fields.len() as int));
        assert(decreases_to!(fields => fields.subrange(1, fields.len() as int)));
    }
}

/// Element values of a list are the values of its elements, index by
/// index.
pub proof fn lemma_nodes_of_index(items: Seq<Json>)
    ensures
        nodes_of(items).len() == items.len(),
        forall|i: int| 0 <= i < items.len() ==> nodes_of(items)[i] == node_of(#[trigger] items[i]),
    decreases items.len(),
{
    if items.len() > 0 {
        lemma_nodes_of_index(items.drop_first());
        assert forall|i: int| 0 <= i < items.len() implies nodes_of(items)[i] == node_of(
            #[trigger] items[i],
        ) by {
            if i > 0 {
                assert(nodes_of(items)[i] == nodes_of(items.drop_first())[i - 1]);
                assert(items.drop_first()[i - 1] == items[i]);
            }
        }
    }
}

/// Field values of a list are the key views and values of its fields,
/// index by index.
pub proof fn lemma_field_nodes_of_index(fields: Seq<(String, Json)>)
    ensures
        field_nodes_of(fields).len() == fields.len(),
        forall|i: int|
            0 <= i < fields.len() ==> field_nodes_of(fields)[i] == ((#[trigger] fields[i]).0@,
            node_of(fields[i].1)),
    decreases fields.len(),
{
    if fields.len() > 0 {
        lemma_field_nodes_of_index(fields.drop_first());
        assert forall|i: int| 0 <= i < fields.len() implies field_nodes_of(fields)[i] == ((
        #[trigger] fields[i]).0@, node_of(fields[i].1)) by {
            if i > 0 {
                assert(field_nodes_of(fields)[i] == field_nodes_of(fields.drop_first())[i - 1]);
                assert(fields.drop_first()[i - 1] == fields[i]);
            }
        }
    }
}

/// A fetch attempt that yielded no usable quote.
pub enum FetchError {
    /// The request itself failed: network error or timeout.
    Transport,
    /// The response was not well-formed expected JSON.
    Decode,
    /// The response was well formed but carried a non-empty error list.
    RemoteError(Vec<String>),
}

/// The value under `key` in an object's field list, first match in
/// document order.
pub open spec fn spec_lookup(fields: Seq<(String, Json)>, key: Seq<char>) -> Option<Json>
    decreases fields.len(),
{
    if fields.len() == 0 {
        None
    } else if fields[0].0@ == key {
        Some(fields[0].1)
    } else {
        spec_lookup(fields.drop_first(), key)
    }
}

/// A lookup skips any prefix without a match.
proof fn lemma_lookup_skip(fields: Seq<(String, Json)>, key: Seq<char>, i: int)
    requires
        0 <= i <= fields.len(),
        forall|j: int| 0 <= j < i ==> (#[trigger] fields[j]).0@ != key,
    ensures
        spec_lookup(fields, key) == spec_lookup(fields.skip(i), key),
    decreases i,
{
    if i > 0 {
        lemma_lookup_skip(fields.drop_first(), key, i - 1);
        assert(fields.drop_first().skip(i - 1) =~= fields.skip(i));
    } else {
        assert(fields.skip(0) =~= fields);
    }
}

/// The field named `key`, by linear scan, first match wins.
fn obj_get<'a>(fields: &'a Vec<(String, Json)>, key: &str) -> (r: Option<&'a Json>)
    ensures
        match r {
            Some(v) => spec_lookup(fields@, key@) == Some(*v),
            None => spec_lookup(fields@, key@) is None,
        },
{
    let n = fields.len();
    let mut i: usize = 0;
    while i < n
        invariant
            i <= n,
            n == fields@.len(),
            forall|j: int| 0 <= j < i ==> (#[trigger] fields@[j]).0@ != key@,
        decreases n - i,
    {
        if str_eq(fields[i].0.as_str(), key) {
            proof {
                lemma_lookup_skip(fields@, key@, i as int);
                assert(fields@.skip(i as int)[0] == fields@[i as int]);
            }
            return Some(&fields[i].1);
        }
        i += 1;
    }
    proof {
        lemma_lookup_skip(fields@, key@, n as int);
    }
    None
}

/// The content of a JSON string value.
pub open spec fn spec_json_str(v: Json) -> Option<Seq<char>> {
    match v {
        Json::Str(s) => Some(s@),
        _ => None,
    }
}

/// The response's error list: present exactly when the response is an
/// object whose `error` field is an array of strings — the shape the
/// expected response format demands.
pub open spec fn spec_error_list(v: Json) -> Option<Seq<Seq<char>>> {
    match v {
        Json::Obj(fields) => match spec_lookup(fields@, "error"@) {
            Some(e) => match e {
                Json::Arr(items) => if forall|i: int|
                    0 <= i < items@.len() ==> spec_json_str(#[trigger] items@[i]) is Some {
                    Some(Seq::new(items@.len(), |i: int| spec_json_str(items@[i]).unwrap()))
                } else {
                    None
                },
                _ => None,
            },
            None => None,
        },
        _ => None,
    }
}

/// The response's `result` field, which the expected format demands.
pub open spec fn spec_result_field(v: Json) -> Option<Json> {
    match v {
        Json::Obj(fields) => spec_lookup(fields@, "result"@),
        _ => None,
    }
}

/// The price inside one pair's entry of the result mapping: its `c` field's
/// first element when that is a string, the sentinel otherwise.
pub open spec fn spec_price_of_entry(entry: Json) -> Seq<char> {
    match entry {
        Json::Obj(fields) => match spec_lookup(fields@, "c"@) {
            Some(c) => match c {
                Json::Arr(items) => if items@.len() > 0 {
                    match spec_json_str(items@[0]) {
                        Some(s) => s,
                        None => spec_sentinel(),
                    }
                } else {
                    spec_sentinel()
                },
                _ => spec_sentinel(),
            },
            None => spec_sentinel(),
        },
        _ => spec_sentinel(),
    }
}

/// The extracted price of a whole result mapping: the price of its first
/// entry in document order, the sentinel if the mapping is not an object or
/// is empty.
pub open spec fn spec_extract_price(result: Json) -> Seq<char> {
    match result {
        Json::Obj(fields) => if fields@.len() > 0 {
            spec_price_of_entry(fields@[0].1)
        } else {
            spec_sentinel()
        },
        _ => spec_sentinel(),
    }
}

/// The sentinel as a `String`.
fn sentinel_string() -> (r: String)
    ensures
        r@ == spec_sentinel(),
{
    String::from_str("N/A")
}

/// Extract the price from the response's result mapping, degrading to the
/// sentinel wherever the expected shape is absent.
pub fn extract_price(result: &Json) -> (r: String)
    ensures
        r@ == spec_extract_price(*result),
{
    let fields = match result {
        Json::Obj(fields) => fields,
        _ => { return sentinel_string() },
    };
    if fields.len() == 0 {
        return sentinel_string();
    }
    let first = &fields[0].1;
    let inner = match first {
        Json::Obj(f) => f,
        _ => { return sentinel_string() },
    };
    let c_field = match obj_get(inner, "c") {
        Some(c) => c,
        None => { return sentinel_string() },
    };
    let items = match c_field {
        Json::Arr(items) => items,
        _ => { return sentinel_string() },
    };
    if items.len() == 0 {
        return sentinel_string();
    }
    match &items[0] {
        Json::Str(s) => s.clone(),
        _ => sentinel_string(),
    }
}

/// What classifying the parsed response `v` must yield: `Decode` when the
/// expected shape (a `result` field and an `error` list of strings) is
/// missing, `RemoteError` with the reported messages when the error list is
/// non-empty, and otherwise the extracted price.
pub open spec fn spec_classified(v: Json, r: Result<String, FetchError>) -> bool {
    let el = spec_error_list(v);
    let res = spec_result_field(v);
    if el is None || res is None {
        r == Err::<String, FetchError>(FetchError::Decode)
    } else if el.unwrap().len() > 0 {
        r matches Err(FetchError::RemoteError(msgs)) && msgs.deep_view() == el.unwrap()
    } else {
        r matches Ok(p) && p@ == spec_extract_price(res.unwrap())
    }
}

/// Classify a parsed response.
#[verifier::loop_isolation(false)]
pub fn classify(v: &Json) -> (r: Result<String, FetchError>)
    ensures
        spec_classified(*v, r),
        !(r matches Err(FetchError::Transport)),
{
    let fields = match v {
        Json::Obj(fields) => fields,
        _ => { return Err(FetchError::Decode) },
    };
    let err_field = match obj_get(fields, "error") {
        Some(e) => e,
        None => { return Err(FetchError::Decode) },
    };
    let err_items = match err_field {
        Json::Arr(items) => items,
        _ => { return Err(FetchError::Decode) },
    };
    let mut msgs: Vec<String> = Vec::new();
    let n = err_items.len();
    let mut i: usize = 0;
    while i < n
        invariant
            i <= n,
            n == err_items@.len(),
            msgs@.len() == i,
            forall|j: int|
                0 <= j < i ==> spec_json_str(#[trigger] err_items@[j]) == Some(msgs@[j]@),
        decreases n - i,
    {
        match &err_items[i] {
            Json::Str(s) => {
                let c = s.clone();
                msgs.push(c);
            },
            _ => {
                proof {
                    assert(spec_json_str(err_items@[i as int]) is None);
                    assert(spec_error_list(*v) is None);
                }
                return Err(FetchError::Decode);
            },
        }
        i += 1;
    }
    proof {
        let el = spec_error_list(*v);
        assert(el matches Some(errs) && errs.len() == n);
        assert forall|j: int| 0 <= j < n implies msgs.deep_view()[j] == el.unwrap()[j] by {
            assert(spec_json_str(err_items@[j]) == Some(msgs@[j]@));
        }
        assert(msgs.deep_view() =~~= el.unwrap());
    }
    let result_field = match obj_get(fields, "result") {
        Some(x) => x,
        None => { return Err(FetchError::Decode) },
    };
    if msgs.len() > 0 {
        return Err(FetchError::RemoteError(msgs));
    }
    Ok(extract_price(result_field))
}

/// JSON whitespace.
pub open spec fn spec_is_ws(c: char) -> bool {
    c == ' ' || c == '\t' || c == '\n' || c == '\r'
}

/// First position at or past `i` whose character is not JSON whitespace.
pub open spec fn spec_skip_ws(s: Seq<char>, i: int) -> int
    decreases s.len() - i,
{
    if 0 <= i < s.len() && spec_is_ws(s[i]) {
        spec_skip_ws(s, i + 1)
    } else {
        i
    }
}

/// What a short escape sequence `\e` stands for, if the reader knows it.
pub open spec fn spec_esc(e: char) -> Option<char> {
    if e == '"' {
        Some('"')
    } else if e == '\\' {
        Some('\\')
    } else if e == '/' {
        Some('/')
    } else if e == 'b' {
        Some('\u{8}')
    } else if e == 'f' {
        Some('\u{c}')
    } else if e == 'n' {
        Some('\n')
    } else if e == 'r' {
        Some('\r')
    } else if e == 't' {
        Some('\t')
    } else {
        None
    }
}

/// A character that may appear in a number's raw text.
pub open spec fn spec_is_num_char(c: char) -> bool {
    c == '-' || c == '+' || c == '.' || c == 'e' || c == 'E' || (c as u32 >= 48 && c as u32 <= 57)
}

/// First position at or past `i` whose character cannot continue a number.
pub open spec fn spec_num_end(s: Seq<char>, i: int) -> int
    decreases s.len() - i,
{
    if 0 <= i < s.len() && spec_is_num_char(s[i]) {
        spec_num_end(s, i + 1)
    } else {
        i
    }
}

/// The content read from a string body starting just past its opening
/// quote, and the position just past its closing quote; `None` for an
/// unterminated string or an unknown escape.
pub open spec fn spec_parse_string(s: Seq<char>, i: int) -> Option<(Seq<char>, int)>
    decreases s.len() - i,
{
    if i < 0 || i >= s.len() {
        None
    } else if s[i] == '"' {
        Some((Seq::empty(), i + 1))
    } else if s[i] == '\\' {
        if i + 1 >= s.len() {
            None
        } else {
            match spec_esc(s[i + 1]) {
                Some(c) => match spec_parse_string(s, i + 2) {
                    Some((rest, j)) => Some((seq![c] + rest, j)),
                    None => None,
                },
                None => None,
            }
        }
    } else {
        match spec_parse_string(s, i + 1) {
            Some((rest, j)) => Some((seq![s[i]] + rest, j)),
            None => None,
        }
    }
}

/// One JSON value read at position `i` (no leading whitespace), and the
/// position just past it.  This is the reader's meaning as a function of
/// the text alone; the executable reader returns exactly this.
pub open spec fn spec_parse_value(s: Seq<char>, i: int) -> Option<(JsonNode, int)>
    decreases s.len() - i, 1int,
{
    if i < 0 || i >= s.len() {
        None
    } else {
        let c = s[i];
        if c == 'n' {
            if i + 4 <= s.len() && s.subrange(i, i + 4) == "null"@ {
                Some((JsonNode::Null, i + 4))
            } else {
                None
            }
        } else if c == 't' {
            if i + 4 <= s.len() && s.subrange(i, i + 4) == "true"@ {
                Some((JsonNode::Bool(true), i + 4))
            } else {
                None
            }
        } else if c == 'f' {
            if i + 5 <= s.len() && s.subrange(i, i + 5) == "false"@ {
                Some((JsonNode::Bool(false), i + 5))
            } else {
                None
            }
        } else if c == '"' {
            match spec_parse_string(s, i + 1) {
                Some((t, j)) => Some((JsonNode::Str(t), j)),
                None => None,
            }
        } else if c == '[' {
            let j0 = spec_skip_ws(s, i + 1);
            if !(i < j0 && j0 <= s.len()) {
                None
            } else if j0 >= s.len() {
                None
            } else if s[j0] == ']' {
                Some((JsonNode::Arr(Seq::empty()), j0 + 1))
            } else {
                match spec_arr_items(s, j0) {
                    Some((items, j)) => Some((JsonNode::Arr(items), j)),
                    None => None,
                }
            }
        } else if c == '{' {
            let j0 = spec_skip_ws(s, i + 1);
            if !(i < j0 && j0 <= s.len()) {
                None
            } else if j0 >= s.len() {
                None
            } else if s[j0] == '}' {
                Some((JsonNode::Obj(Seq::empty()), j0 + 1))
            } else {
                match spec_obj_fields(s, j0) {
                    Some((fields, j)) => Some((JsonNode::Obj(fields), j)),
                    None => None,
                }
            }
        } else if spec_is_num_char(c) {
            let j = spec_num_end(s, i);
            if j == i || j > s.len() {
                None
            } else {
                Some((JsonNode::Num(s.subrange(i, j)), j))
            }
        } else {
            None
        }
    }
}

/// The elements of an array read from position `j` (at a value start) to
/// just past the closing bracket.
pub open spec fn spec_arr_items(s: Seq<char>, j: int) -> Option<(Seq<JsonNode>, int)>
    decreases s.len() - j, 2int,
{
    if j < 0 || j > s.len() {
        None
    } else {
        match spec_parse_value(s, j) {
            None => None,
            Some((v, j2)) => if !(j < j2 && j2 <= s.len()) {
                None
            } else {
                let j3 = spec_skip_ws(s, j2);
                if !(j2 <= j3 && j3 <= s.len()) {
                    None
                } else if j3 >= s.len() {
                    None
                } else if s[j3] == ']' {
                    Some((seq![v], j3 + 1))
                } else if s[j3] == ',' {
                    let j4 = spec_skip_ws(s, j3 + 1);
                    if !(j < j4 && j4 <= s.len()) {
                        None
                    } else {
                        match spec_arr_items(s, j4) {
                            Some((rest, jend)) => Some((seq![v] + rest, jend)),
                            None => None,
                        }
                    }
                } else {
                    None
                }
            },
        }
    }
}

/// The fields of an object read from position `j` (at a key's opening
/// quote) to just past the closing brace.
pub open spec fn spec_obj_fields(s: Seq<char>, j: int) -> Option<(Seq<(Seq<char>, JsonNode)>, int)>
    decreases s.len() - j, 2int,
{
    if j < 0 || j >= s.len() {
        None
    } else if s[j] != '"' {
        None
    } else {
        match spec_parse_string(s, j + 1) {
            None => None,
            Some((key, jk)) => if !(j < jk && jk <= s.len()) {
                None
            } else {
                let jc = spec_skip_ws(s, jk);
                if !(jk <= jc && jc <= s.len()) {
                    None
                } else if jc >= s.len() {
                    None
                } else if s[jc] != ':' {
                    None
                } else {
                    let jv = spec_skip_ws(s, jc + 1);
                    if !(j < jv && jv <= s.len()) {
                        None
                    } else {
                        match spec_parse_value(s, jv) {
                            None => None,
                            Some((v, j2)) => if !(j < j2 && j2 <= s.len()) {
                                None
                            } else {
                                let j3 = spec_skip_ws(s, j2);
                                if !(j2 <= j3 && j3 <= s.len()) {
                                    None
                                } else if j3 >= s.len() {
                                    None
                                } else if s[j3] == '}' {
                                    Some((seq![(key, v)], j3 + 1))
                                } else if s[j3] == ',' {
                                    let j4 = spec_skip_ws(s, j3 + 1);
                                    if !(j < j4 && j4 <= s.len()) {
                                        None
                                    } else {
                                        match spec_obj_fields(s, j4) {
                                            Some((rest, jend)) => Some(
                                                (seq![(key, v)] + rest, jend),
                                            ),
                                            None => None,
                                        }
                                    }
                                } else {
                                    None
                                }
                            },
                        }
                    }
                }
            },
        }
    }
}

/// A whole body read as one JSON value, with leading and trailing
/// whitespace allowed and anything further rejected.
pub open spec fn spec_parse_json(s: Seq<char>) -> Option<JsonNode> {
    let start = spec_skip_ws(s, 0);
    match spec_parse_value(s, start) {
        Some((v, j)) => if spec_skip_ws(s, j) == s.len() {
            Some(v)
        } else {
            None
        },
        None => None,
    }
}

/// First position at or past `i` whose character is not JSON whitespace.
fn skip_ws(s: &Vec<char>, i: usize) -> (r: usize)
    requires
        i <= s@.len(),
    ensures
        i <= r <= s@.len(),
        r as int == spec_skip_ws(s@, i as int),
{
    let n = s.len();
    let mut j: usize = i;
    while j < n
        invariant
            i <= j <= n,
            n == s@.len(),
            spec_skip_ws(s@, i as int) == spec_skip_ws(s@, j as int),
        decreases n - j,
    {
        let c = s[j];
        if c != ' ' && c != '\t' && c != '\n' && c != '\r' {
            return j;
        }
        j += 1;
    }
    j
}

/// Whether `c` may appear in a number's raw text.
fn is_num_char(c: char) -> (r: bool)
    ensures
        r == spec_is_num_char(c),
{
    c == '-' || c == '+' || c == '.' || c == 'e' || c == 'E' || ((c as u32) >= 48 && (c as u32)
        <= 57)
}

/// What a short escape sequence stands for, if the reader knows it.
fn esc_char(e: char) -> (r: Option<char>)
    ensures
        r == spec_esc(e),
{
    if e == '"' {
        Some('"')
    } else if e == '\\' {
        Some('\\')
    } else if e == '/' {
        Some('/')
    } else if e == 'b' {
        Some('\u{8}')
    } else if e == 'f' {
        Some('\u{c}')
    } else if e == 'n' {
        Some('\n')
    } else if e == 'r' {
        Some('\r')
    } else if e == 't' {
        Some('\t')
    } else {
        None
    }
}

/// Read a string body starting just past its opening quote; unescapes the
/// short escape sequences and stops at the closing quote.  An unterminated
/// string, or an escape this reader does not know (`\u` included), is a
/// failure.
fn parse_string(s: &Vec<char>, i: usize) -> (r: Option<(String, usize)>)
    requires
        i <= s@.len(),
    ensures
        match r {
            Some((t, j)) => i < j <= s@.len() && spec_parse_string(s@, i as int) == Some(
                (t@, j as int),
            ),
            None => spec_parse_string(s@, i as int) is None,
        },
    decreases s@.len() - i,
{
    let n = s.len();
    if i >= n {
        return None;
    }
    let c = s[i];
    if c == '"' {
        return Some((String::new(), i + 1));
    }
    if c == '\\' {
        if i + 1 >= n {
            return None;
        }
        let c2 = match esc_char(s[i + 1]) {
            Some(c2) => c2,
            None => { return None },
        };
        match parse_string(s, i + 2) {
            Some((rest, j)) => {
                let mut out = String::new();
                out.push(c2);
                out.append(rest.as_str());
                proof {
                    assert(out@ =~= seq![c2] + rest@);
                }
                Some((out, j))
            },
            None => None,
        }
    } else {
        match parse_string(s, i + 1) {
            Some((rest, j)) => {
                let mut out = String::new();
                out.push(c);
                out.append(rest.as_str());
                proof {
                    assert(out@ =~= seq![c] + rest@);
                }
                Some((out, j))
            },
            None => None,
        }
    }
}

/// Read a number's raw text starting at `i`.
fn parse_number(s: &Vec<char>, i: usize) -> (r: Option<(Json, usize)>)
    requires
        i <= s@.len(),
    ensures
        match r {
            Some((v, j)) => i < j <= s@.len() && j as int == spec_num_end(s@, i as int)
                && node_of(v) == JsonNode::Num(s@.subrange(i as int, j as int)),
            None => spec_num_end(s@, i as int) == i,
        },
{
    let n = s.len();
    let mut out = String::new();
    let mut j: usize = i;
    proof {
        assert(out@ =~= s@.subrange(i as int, i as int));
    }
    while j < n && is_num_char(s[j])
        invariant
            i <= j <= n,
            n == s@.len(),
            out@ == s@.subrange(i as int, j as int),
            spec_num_end(s@, i as int) == spec_num_end(s@, j as int),
        decreases n - j,
    {
        let c = s[j];
        out.push(c);
        proof {
            assert(s@.subrange(i as int, j as int) + seq![s@[j as int]] =~= s@.subrange(
                i as int,
                j + 1,
            ));
        }
        j += 1;
    }
    if j == i {
        return None;
    }
    Some((Json::Num(out), j))
}

/// Check that the literal `lit` stands at position `i`.
fn match_literal(s: &Vec<char>, i: usize, lit: &str) -> (r: bool)
    requires
        i <= s@.len(),
    ensures
        r == (i + lit@.len() <= s@.len() && s@.subrange(i as int, i as int + lit@.len() as int)
            == lit@),
{
    let m = lit.unicode_len();
    let n = s.len();
    if m > n - i {
        return false;
    }
    let mut k: usize = 0;
    while k < m
        invariant
            k <= m,
            m == lit@.len(),
            n == s@.len(),
            i + m <= n,
            forall|t: int| 0 <= t < k ==> s@[i + t] == #[trigger] lit@[t],
        decreases m - k,
    {
        if s[i + k] != lit.get_char(k) {
            proof {
                assert(s@.subrange(i as int, i as int + m as int)[k as int] != lit@[k as int]);
            }
            return false;
        }
        k += 1;
    }
    proof {
        assert(s@.subrange(i as int, i as int + m as int) =~= lit@);
    }
    true
}

/// Read one JSON value starting at `i` (no leading whitespace); on success
/// returns the value and the position just past it.  The result is exactly
/// what [`spec_parse_value`] says of the text.
fn parse_value(s: &Vec<char>, i: usize) -> (r: Option<(Json, usize)>)
    requires
        i <= s@.len(),
    ensures
        match r {
            Some((v, j)) => i < j <= s@.len() && spec_parse_value(s@, i as int) == Some(
                (node_of(v), j as int),
            ),
            None => spec_parse_value(s@, i as int) is None,
        },
    decreases s@.len() - i, 1int,
{
    let n = s.len();
    if i >= n {
        return None;
    }
    let c = s[i];
    if c == 'n' {
        proof {
            reveal_strlit("null");
        }
        if match_literal(s, i, "null") {
            return Some((Json::Null, i + 4));
        }
        return None;
    }
    if c == 't' {
        proof {
            reveal_strlit("true");
        }
        if match_literal(s, i, "true") {
            return Some((Json::Bool(true), i + 4));
        }
        return None;
    }
    if c == 'f' {
        proof {
            reveal_strlit("false");
        }
        if match_literal(s, i, "false") {
            return Some((Json::Bool(false), i + 5));
        }
        return None;
    }
    if c == '"' {
        return match parse_string(s, i + 1) {
            Some((text, j)) => Some((Json::Str(text), j)),
            None => None,
        };
    }
    if c == '[' {
        let j0 = skip_ws(s, i + 1);
        if j0 >= n {
            return None;
        }
        if s[j0] == ']' {
            let items: Vec<Json> = Vec::new();
            proof {
                assert(nodes_of(items@) =~= Seq::<JsonNode>::empty());
            }
            return Some((Json::Arr(items), j0 + 1));
        }
        return match parse_arr_items(s, j0) {
            Some((items, jend)) => Some((Json::Arr(items), jend)),
            None => None,
        };
    }
    if c == '{' {
        let j0 = skip_ws(s, i + 1);
        if j0 >= n {
            return None;
        }
        if s[j0] == '}' {
            let fields: Vec<(String, Json)> = Vec::new();
            proof {
                assert(field_nodes_of(fields@) =~= Seq::<(Seq<char>, JsonNode)>::empty());
            }
            return Some((Json::Obj(fields), j0 + 1));
        }
        return match parse_obj_fields(s, j0) {
            Some((fields, jend)) => Some((Json::Obj(fields), jend)),
            None => None,
        };
    }
    if is_num_char(c) {
        return parse_number(s, i);
    }
    None
}

/// Read the elements of an array from `j` (at a value start) through the
/// closing bracket.
fn parse_arr_items(s: &Vec<char>, j: usize) -> (r: Option<(Vec<Json>, usize)>)
    requires
        j <= s@.len(),
    ensures
        match r {
            Some((items, jend)) => j < jend <= s@.len() && spec_arr_items(s@, j as int) == Some(
                (nodes_of(items@), jend as int),
            ),
            None => spec_arr_items(s@, j as int) is None,
        },
    decreases s@.len() - j, 2int,
{
    let n = s.len();
    let (v, j2) = match parse_value(s, j) {
        Some(x) => x,
        None => { return None },
    };
    let j3 = skip_ws(s, j2);
    if j3 >= n {
        return None;
    }
    if s[j3] == ']' {
        let mut items: Vec<Json> = Vec::new();
        items.push(v);
        proof {
            assert(items@.drop_first() =~= Seq::<Json>::empty());
            assert(nodes_of(items@.drop_first()) =~= Seq::<JsonNode>::empty());
            assert(nodes_of(items@) =~= seq![node_of(v)]);
        }
        return Some((items, j3 + 1));
    }
    if s[j3] != ',' {
        return None;
    }
    let j4 = skip_ws(s, j3 + 1);
    match parse_arr_items(s, j4) {
        Some((rest, jend)) => {
            let ghost rest0 = rest@;
            let mut items = rest;
            items.insert(0, v);
            proof {
                assert(items@ =~= seq![v] + rest0);
                assert(items@.drop_first() =~= rest0);
                assert(nodes_of(items@) =~= seq![node_of(v)] + nodes_of(rest0));
            }
            Some((items, jend))
        },
        None => None,
    }
}

/// Read the fields of an object from `j` (at a key's opening quote)
/// through the closing brace.
fn parse_obj_fields(s: &Vec<char>, j: usize) -> (r: Option<(Vec<(String, Json)>, usize)>)
    requires
        j <= s@.len(),
    ensures
        match r {
            Some((fields, jend)) => j < jend <= s@.len() && spec_obj_fields(s@, j as int) == Some(
                (field_nodes_of(fields@), jend as int),
            ),
            None => spec_obj_fields(s@, j as int) is None,
        },
    decreases s@.len() - j, 2int,
{
    let n = s.len();
    if j >= n {
        return None;
    }
    if s[j] != '"' {
        return None;
    }
    let (key, jk) = match parse_string(s, j + 1) {
        Some(x) => x,
        None => { return None },
    };
    let jc = skip_ws(s, jk);
    if jc >= n {
        return None;
    }
    if s[jc] != ':' {
        return None;
    }
    let jv = skip_ws(s, jc + 1);
    let (v, j2) = match parse_value(s, jv) {
        Some(x) => x,
        None => { return None },
    };
    let j3 = skip_ws(s, j2);
    if j3 >= n {
        return None;
    }
    if s[j3] == '}' {
        let mut fields: Vec<(String, Json)> = Vec::new();
        fields.push((key, v));
        proof {
            assert(fields@.drop_first() =~= Seq::<(String, Json)>::empty());
            assert(field_nodes_of(fields@.drop_first()) =~= Seq::<(Seq<char>, JsonNode)>::empty());
            assert(field_nodes_of(fields@) =~= seq![(key@, node_of(v))]);
        }
        return Some((fields, j3 + 1));
    }
    if s[j3] != ',' {
        return None;
    }
    let j4 = skip_ws(s, j3 + 1);
    match parse_obj_fields(s, j4) {
        Some((rest, jend)) => {
            let ghost rest0 = rest@;
            let mut fields = rest;
            fields.insert(0, (key, v));
            proof {
                assert(fields@ =~= seq![(key, v)] + rest0);
                assert(fields@.drop_first() =~= rest0);
                assert(field_nodes_of(fields@) =~= seq![(key@, node_of(v))] + field_nodes_of(
                    rest0,
                ));
            }
            Some((fields, jend))
        },
        None => None,
    }
}

/// Read a whole response body as one JSON value, rejecting leading or
/// trailing garbage: the parsed tree's value is exactly what
/// [`spec_parse_json`] says of the body text.
pub(crate) fn parse_json(body: &str) -> (r: Option<Json>)
    ensures
        match r {
            Some(v) => spec_parse_json(body@) == Some(node_of(v)),
            None => spec_parse_json(body@) is None,
        },
{
    let chars = str_chars(body);
    let n = chars.len();
    let start = skip_ws(&chars, 0);
    match parse_value(&chars, start) {
        Some((v, j)) => {
            let j2 = skip_ws(&chars, j);
            if j2 == n {
                Some(v)
            } else {
                None
            }
        },
        None => None,
    }
}

/// The value under `key` in a specification-level object's field list,
/// first match in document order.
pub open spec fn node_lookup(fields: Seq<(Seq<char>, JsonNode)>, key: Seq<char>) -> Option<
    JsonNode,
>
    decreases fields.len(),
{
    if fields.len() == 0 {
        None
    } else if fields[0].0 == key {
        Some(fields[0].1)
    } else {
        node_lookup(fields.drop_first(), key)
    }
}

/// The content of a specification-level JSON string value.
pub open spec fn node_str(n: JsonNode) -> Option<Seq<char>> {
    match n {
        JsonNode::Str(s) => Some(s),
        _ => None,
    }
}

/// The response's error list, read off the specification-level value:
/// present exactly when the response is an object whose `error` field is
/// an array of strings.
pub open spec fn node_error_list(n: JsonNode) -> Option<Seq<Seq<char>>> {
    match n {
        JsonNode::Obj(fields) => match node_lookup(fields, "error"@) {
            Some(e) => match e {
                JsonNode::Arr(items) => if forall|i: int|
                    0 <= i < items.len() ==> node_str(#[trigger] items[i]) is Some {
                    Some(Seq::new(items.len(), |i: int| node_str(items[i]).unwrap()))
                } else {
                    None
                },
                _ => None,
            },
            None => None,
        },
        _ => None,
    }
}

/// The response's `result` field, read off the specification-level value.
pub open spec fn node_result_field(n: JsonNode) -> Option<JsonNode> {
    match n {
        JsonNode::Obj(fields) => node_lookup(fields, "result"@),
        _ => None,
    }
}

/// The price inside one pair's entry of the result mapping, read off the
/// specification-level value.
pub open spec fn node_price_of_entry(entry: JsonNode) -> Seq<char> {
    match entry {
        JsonNode::Obj(fields) => match node_lookup(fields, "c"@) {
            Some(c) => match c {
                JsonNode::Arr(items) => if items.len() > 0 {
                    match node_str(items[0]) {
                        Some(s) => s,
                        None => spec_sentinel(),
                    }
                } else {
                    spec_sentinel()
                },
                _ => spec_sentinel(),
            },
            None => spec_sentinel(),
        },
        _ => spec_sentinel(),
    }
}

/// The extracted price of a whole result mapping, read off the
/// specification-level value.
pub open spec fn node_extract_price(result: JsonNode) -> Seq<char> {
    match result {
        JsonNode::Obj(fields) => if fields.len() > 0 {
            node_price_of_entry(fields[0].1)
        } else {
            spec_sentinel()
        },
        _ => spec_sentinel(),
    }
}

/// What classifying a response whose specification-level value is `n` must
/// yield — the same decision as [`spec_classified`], stated as a function
/// of the response text alone.
pub open spec fn spec_classified_node(n: JsonNode, r: Result<String, FetchError>) -> bool {
    let el = node_error_list(n);
    let res = node_result_field(n);
    if el is None || res is None {
        r == Err::<String, FetchError>(FetchError::Decode)
    } else if el.unwrap().len() > 0 {
        r matches Err(FetchError::RemoteError(msgs)) && msgs.deep_view() == el.unwrap()
    } else {
        r matches Ok(p) && p@ == node_extract_price(res.unwrap())
    }
}

/// Looking a key up in a parsed object's fields or in their
/// specification-level values finds the same field.
proof fn lemma_node_lookup(fields: Seq<(String, Json)>, key: Seq<char>)
    ensures
        node_lookup(field_nodes_of(fields), key) == match spec_lookup(fields, key) {
            Some(v) => Some(node_of(v)),
            None => None::<JsonNode>,
        },
    decreases fields.len(),
{
    lemma_field_nodes_of_index(fields);
    if fields.len() > 0 {
        lemma_node_lookup(fields.drop_first(), key);
        assert(field_nodes_of(fields).drop_first() =~= field_nodes_of(fields.drop_first()));
    }
}

/// A parsed value and its specification-level value carry the same error
/// list.
proof fn lemma_node_error_list(v: Json)
    ensures
        node_error_list(node_of(v)) == spec_error_list(v),
{
    match v {
        Json::Obj(fields) => {
            lemma_node_lookup(fields@, "error"@);
            match spec_lookup(fields@, "error"@) {
                Some(e) => {
                    match e {
                        Json::Arr(items) => {
                            lemma_nodes_of_index(items@);
                            let nitems = nodes_of(items@);
                            assert forall|i: int| 0 <= i < items@.len() implies node_str(
                                #[trigger] nitems[i],
                            ) == spec_json_str(items@[i]) by {
                                assert(nitems[i] == node_of(items@[i]));
                            }
                            if forall|i: int|
                                0 <= i < items@.len() ==> spec_json_str(#[trigger] items@[i])
                                    is Some {
                                assert forall|i: int| 0 <= i < nitems.len() implies node_str(
                                    #[trigger] nitems[i],
                                ) is Some by {
                                    assert(spec_json_str(items@[i]) is Some);
                                }
                                assert(Seq::new(nitems.len(), |i: int| node_str(nitems[i]).unwrap())
                                    =~~= Seq::new(
                                    items@.len(),
                                    |i: int| spec_json_str(items@[i]).unwrap(),
                                ));
                            } else {
                                let i = choose|i: int|
                                    0 <= i < items@.len() && !(spec_json_str(
                                        #[trigger] items@[i],
                                    ) is Some);
                                assert(node_str(nitems[i]) is None);
                                assert(!(forall|k: int|
                                    0 <= k < nitems.len() ==> node_str(#[trigger] nitems[k])
                                        is Some));
                            }
                        },
                        _ => {},
                    }
                },
                None => {},
            }
        },
        _ => {},
    }
}

/// A parsed result entry and its specification-level value carry the same
/// price.
proof fn lemma_node_price_entry(entry: Json)
    ensures
        node_price_of_entry(node_of(entry)) == spec_price_of_entry(entry),
{
    match entry {
        Json::Obj(fields) => {
            lemma_node_lookup(fields@, "c"@);
            match spec_lookup(fields@, "c"@) {
                Some(c) => match c {
                    Json::Arr(items) => {
                        lemma_nodes_of_index(items@);
                        if items@.len() > 0 {
                            assert(nodes_of(items@)[0] == node_of(items@[0]));
                        }
                    },
                    _ => {},
                },
                None => {},
            }
        },
        _ => {},
    }
}

/// A parsed result mapping and its specification-level value carry the
/// same extracted price.
proof fn lemma_node_extract(result: Json)
    ensures
        node_extract_price(node_of(result)) == spec_extract_price(result),
{
    match result {
        Json::Obj(fields) => {
            lemma_field_nodes_of_index(fields@);
            if fields@.len() > 0 {
                lemma_node_price_entry(fields@[0].1);
            }
        },
        _ => {},
    }
}

/// A classification decided over a parsed tree is the classification that
/// the tree's specification-level value demands.
pub proof fn lemma_classified_node(v: Json, r: Result<String, FetchError>)
    requires
        spec_classified(v, r),
    ensures
        spec_classified_node(node_of(v), r),
{
    lemma_node_error_list(v);
    match v {
        Json::Obj(fields) => {
            lemma_node_lookup(fields@, "result"@);
        },
        _ => {},
    }
    match spec_result_field(v) {
        Some(res) => lemma_node_extract(res),
        None => {},
    }
}

/// Classify a raw response body: parse it, then classify the parsed value.
/// A body that does not read as JSON — [`spec_parse_json`] says which do —
/// is a `Decode` failure; any body that does read as JSON is classified
/// exactly as its specification-level value demands.  A `Transport`
/// failure can only be reported by the caller that performed the request,
/// never from here.
pub fn classify_body(body: &str) -> (r: Result<String, FetchError>)
    ensures
        !(r matches Err(FetchError::Transport)),
        spec_parse_json(body@) is None ==> r == Err::<String, FetchError>(FetchError::Decode),
        spec_parse_json(body@) matches Some(n) ==> spec_classified_node(n, r),
{
    match parse_json(body) {
        Some(v) => {
            let r = classify(&v);
            proof {
                lemma_classified_node(v, r);
            }
            r
        },
        None => Err(FetchError::Decode),
    }
}

} // verus!
