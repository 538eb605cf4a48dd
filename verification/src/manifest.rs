//! Reading the driver's file manifest.
//!
//! The shape is a flat array of objects whose values are strings or arrays of strings; any other
//! value is passed over, since an unknown field is not a reason to refuse a manifest whose entries
//! are otherwise fine. The parser goes by bytes: a byte outside ASCII becomes the character of its
//! value.
use crate::categories::Categories;
use crate::text::same_text;
use crate::userspace::{
    entries_wf, entry_views, kind_of, Entry, EntryView, FileKind, KindView,
};
use vstd::prelude::*;
use vstd::string::StringExecFns;
use vstd::utf8::encode_utf8;

verus! {

/// Why a manifest cannot be read.
#[derive(Debug, Clone, PartialEq, Eq)]
pub enum ManifestError {
    NoArray,
    NotAnObject(u8),
    EndInArray,
    NoKey,
    NoColon(String),
    NotAStringInArray,
    NoName,
    EndInString,
    EndInEscape,
}

/// What a `ManifestError` holds.
pub enum ErrorView {
    NoArray,
    NotAnObject(u8),
    EndInArray,
    NoKey,
    NoColon(Seq<char>),
    NotAStringInArray,
    NoName,
    EndInString,
    EndInEscape,
}

/// `{:?}` of a character: quoted, with what cannot be shown escaped.
pub uninterp spec fn quoted_char(c: char) -> Seq<char>;

/// `{:?}` of a string: quoted, with what cannot be shown escaped.
pub uninterp spec fn quoted_text(s: Seq<char>) -> Seq<char>;

/// `format!` with `{:?}` of a `char`, named by `quoted_char`.
#[verifier::external_body]
fn quote_char(c: char) -> (r: String)
    ensures
        r@ == quoted_char(c),
{
    format!("{:?}", c)
}

/// `format!` with `{:?}` of a `str`, named by `quoted_text`.
#[verifier::external_body]
pub(crate) fn quote_text(s: &str) -> (r: String)
    ensures
        r@ == quoted_text(s@),
{
    format!("{:?}", s)
}

impl ErrorView {
    pub open spec fn text(self) -> Seq<char> {
        match self {
            ErrorView::NoArray => "expected a top-level array"@,
            ErrorView::NotAnObject(b) => "expected an object, found "@ + quoted_char(b as char),
            ErrorView::EndInArray => "file ended inside the array"@,
            ErrorView::NoKey => "expected a key"@,
            ErrorView::NoColon(key) => "no ':' after key "@ + quoted_text(key),
            ErrorView::NotAStringInArray => "expected a string in an array"@,
            ErrorView::NoName => "an entry has no \"name\""@,
            ErrorView::EndInString => "file ended inside a string"@,
            ErrorView::EndInEscape => "file ended inside an escape"@,
        }
    }
}

impl ManifestError {
    pub open spec fn view(&self) -> ErrorView {
        match self {
            ManifestError::NoArray => ErrorView::NoArray,
            ManifestError::NotAnObject(b) => ErrorView::NotAnObject(*b),
            ManifestError::EndInArray => ErrorView::EndInArray,
            ManifestError::NoKey => ErrorView::NoKey,
            ManifestError::NoColon(key) => ErrorView::NoColon(key@),
            ManifestError::NotAStringInArray => ErrorView::NotAStringInArray,
            ManifestError::NoName => ErrorView::NoName,
            ManifestError::EndInString => ErrorView::EndInString,
            ManifestError::EndInEscape => ErrorView::EndInEscape,
        }
    }

    pub fn to_string(&self) -> (r: String)
        ensures
            r@ == self@.text(),
    {
        match self {
            ManifestError::NoArray => String::from_str("expected a top-level array"),
            ManifestError::NotAnObject(b) => String::from_str("expected an object, found ").concat(
                quote_char(*b as char).as_str(),
            ),
            ManifestError::EndInArray => String::from_str("file ended inside the array"),
            ManifestError::NoKey => String::from_str("expected a key"),
            ManifestError::NoColon(key) => String::from_str("no ':' after key ").concat(
                quote_text(key.as_str()).as_str(),
            ),
            ManifestError::NotAStringInArray => String::from_str("expected a string in an array"),
            ManifestError::NoName => String::from_str("an entry has no \"name\""),
            ManifestError::EndInString => String::from_str("file ended inside a string"),
            ManifestError::EndInEscape => String::from_str("file ended inside an escape"),
        }
    }
}

pub open spec fn is_blank(b: u8) -> bool {
    b == 0x20 || b == 0x09 || b == 0x0a || b == 0x0c || b == 0x0d
}

/// Where the first byte that is not white space stands, from `i` on.
pub open spec fn past_blanks(b: Seq<u8>, i: int) -> int
    decreases b.len() - i,
{
    if 0 <= i < b.len() && is_blank(b[i]) {
        past_blanks(b, i + 1)
    } else {
        i
    }
}

/// Where a value that is neither string nor array ends: at the comma or bracket behind it.
pub open spec fn past_scalar(b: Seq<u8>, i: int) -> int
    decreases b.len() - i,
{
    if 0 <= i < b.len() && b[i] != 0x2c && b[i] != 0x7d && b[i] != 0x5d {
        past_scalar(b, i + 1)
    } else {
        i
    }
}

/// The character that `b` stands for behind a backslash.
pub open spec fn unescaped(b: u8) -> char {
    if b == 0x6e {
        '\n'
    } else if b == 0x74 {
        '\t'
    } else {
        b as char
    }
}

/// The rest of a string whose first characters are `acc`, from `i` up to its closing quote, and
/// where the text behind it begins.
pub open spec fn string_at(b: Seq<u8>, i: int, acc: Seq<char>) -> Result<(Seq<char>, int), ErrorView>
    decreases b.len() - i,
{
    if i < 0 || i >= b.len() {
        Err(ErrorView::EndInString)
    } else if b[i] == 0x22 {
        Ok((acc, i + 1))
    } else if b[i] == 0x5c {
        if i + 1 >= b.len() {
            Err(ErrorView::EndInEscape)
        } else {
            string_at(b, i + 2, acc.push(unescaped(b[i + 1])))
        }
    } else {
        string_at(b, i + 1, acc.push(b[i] as char))
    }
}

/// Reading a string gets past its opening quote.
pub proof fn lemma_string_advances(b: Seq<u8>, i: int, acc: Seq<char>)
    ensures
        string_at(b, i, acc) matches Ok((_, j)) ==> i < j <= b.len(),
    decreases b.len() - i,
{
    if 0 <= i < b.len() && b[i] != 0x22 {
        if b[i] == 0x5c {
            if i + 1 < b.len() {
                lemma_string_advances(b, i + 2, acc.push(unescaped(b[i + 1])));
            }
        } else {
            lemma_string_advances(b, i + 1, acc.push(b[i] as char));
        }
    }
}

pub proof fn lemma_blanks_advance(b: Seq<u8>, i: int)
    requires
        0 <= i <= b.len(),
    ensures
        i <= past_blanks(b, i) <= b.len(),
    decreases b.len() - i,
{
    if i < b.len() && is_blank(b[i]) {
        lemma_blanks_advance(b, i + 1);
    }
}

pub proof fn lemma_scalar_advances(b: Seq<u8>, i: int)
    requires
        0 <= i <= b.len(),
    ensures
        i <= past_scalar(b, i) <= b.len(),
    decreases b.len() - i,
{
    if i < b.len() && b[i] != 0x2c && b[i] != 0x7d && b[i] != 0x5d {
        lemma_scalar_advances(b, i + 1);
    }
}

/// The rest of an array of strings, from `i` up to its closing bracket: `acc` and its elements, and
/// where the text behind it begins.
pub open spec fn array_at(
    b: Seq<u8>,
    i: int,
    acc: Set<Seq<char>>,
) -> Result<(Set<Seq<char>>, int), ErrorView>
    decreases b.len() - i,
{
    if i < 0 || i > b.len() {
        Err(ErrorView::NotAStringInArray)
    } else {
        proof {
            lemma_blanks_advance(b, i);
            lemma_string_advances(b, past_blanks(b, i) + 1, Seq::empty());
        }
        let k = past_blanks(b, i);
        if k >= b.len() {
            Err(ErrorView::NotAStringInArray)
        } else if b[k] == 0x5d {
            Ok((acc, k + 1))
        } else if b[k] == 0x2c {
            array_at(b, k + 1, acc)
        } else if b[k] == 0x22 {
            match string_at(b, k + 1, Seq::empty()) {
                Err(e) => Err(e),
                Ok((s, j)) => array_at(b, j, acc.insert(s)),
            }
        } else {
            Err(ErrorView::NotAStringInArray)
        }
    }
}

pub proof fn lemma_array_advances(b: Seq<u8>, i: int, acc: Set<Seq<char>>)
    ensures
        array_at(b, i, acc) matches Ok((_, j)) ==> i < j <= b.len(),
    decreases b.len() - i,
{
    if 0 <= i <= b.len() {
        lemma_blanks_advance(b, i);
        let k = past_blanks(b, i);
        if k < b.len() {
            if b[k] == 0x2c {
                lemma_array_advances(b, k + 1, acc);
            } else if b[k] == 0x22 {
                lemma_string_advances(b, k + 1, Seq::empty());
                match string_at(b, k + 1, Seq::empty()) {
                    Ok((s, j)) => {
                        lemma_array_advances(b, j, acc.insert(s));
                    },
                    Err(_) => {},
                }
            }
        }
    }
}

/// What an object has given so far.
#[verifier::ext_equal]
pub struct Fields {
    pub name: Option<Seq<char>>,
    pub kind: Option<KindView>,
    pub categories: Set<Seq<char>>,
}

impl Fields {
    pub open spec fn none() -> Fields {
        Fields { name: None, kind: None, categories: Set::empty() }
    }

    /// After a string value: the last `name` and `type` count.
    pub open spec fn with_string(self, key: Seq<char>, value: Seq<char>) -> Fields {
        if key == "name"@ {
            Fields { name: Some(value), ..self }
        } else if key == "type"@ {
            Fields { kind: Some(kind_of(value)), ..self }
        } else {
            self
        }
    }

    /// After an array: every `category` counts.
    pub open spec fn with_array(self, key: Seq<char>, values: Set<Seq<char>>) -> Fields {
        if key == "category"@ {
            Fields { categories: self.categories.union(values), ..self }
        } else {
            self
        }
    }

    /// The entry, if it has a name.
    pub open spec fn entry(self) -> Option<EntryView> {
        match self.name {
            None => None,
            Some(name) => Some(
                EntryView {
                    name,
                    kind: match self.kind {
                        Some(k) => k,
                        None => KindView::Other(Seq::empty()),
                    },
                    categories: self.categories,
                },
            ),
        }
    }
}

/// The value of a key, from `i` on: what the object has given with it, and where the text behind
/// it begins.
pub open spec fn value_at(
    b: Seq<u8>,
    i: int,
    key: Seq<char>,
    acc: Fields,
) -> Result<(Fields, int), ErrorView> {
    if i < b.len() && b[i] == 0x22 {
        match string_at(b, i + 1, Seq::empty()) {
            Err(e) => Err(e),
            Ok((s, j)) => Ok((acc.with_string(key, s), j)),
        }
    } else if i < b.len() && b[i] == 0x5b {
        match array_at(b, i + 1, Set::empty()) {
            Err(e) => Err(e),
            Ok((s, j)) => Ok((acc.with_array(key, s), j)),
        }
    } else {
        Ok((acc, past_scalar(b, i)))
    }
}

/// One key and its value, from the key's opening quote at `i` on.
pub open spec fn member_at(b: Seq<u8>, i: int, acc: Fields) -> Result<(Fields, int), ErrorView> {
    match string_at(b, i + 1, Seq::empty()) {
        Err(e) => Err(e),
        Ok((key, j)) => {
            let colon = past_blanks(b, j);
            if colon >= b.len() || b[colon] != 0x3a {
                Err(ErrorView::NoColon(key))
            } else {
                value_at(b, past_blanks(b, colon + 1), key, acc)
            }
        },
    }
}

pub proof fn lemma_member_advances(b: Seq<u8>, i: int, acc: Fields)
    requires
        0 <= i < b.len(),
    ensures
        member_at(b, i, acc) matches Ok((_, j)) ==> i < j <= b.len(),
{
    lemma_string_advances(b, i + 1, Seq::empty());
    match string_at(b, i + 1, Seq::empty()) {
        Ok((key, j)) => {
            lemma_blanks_advance(b, j);
            let colon = past_blanks(b, j);
            if colon < b.len() && b[colon] == 0x3a {
                lemma_blanks_advance(b, colon + 1);
                let v = past_blanks(b, colon + 1);
                lemma_string_advances(b, v + 1, Seq::empty());
                lemma_array_advances(b, v + 1, Set::empty());
                lemma_scalar_advances(b, v);
            }
        },
        Err(_) => {},
    }
}

/// The rest of an object, from `i` up to its closing brace, and where the text behind it begins.
pub open spec fn object_at(b: Seq<u8>, i: int, acc: Fields) -> Result<(Fields, int), ErrorView>
    decreases b.len() - i,
{
    if i < 0 || i > b.len() {
        Err(ErrorView::NoKey)
    } else {
        proof {
            lemma_blanks_advance(b, i);
            if past_blanks(b, i) < b.len() {
                lemma_member_advances(b, past_blanks(b, i), acc);
            }
        }
        let k = past_blanks(b, i);
        if k >= b.len() {
            Err(ErrorView::NoKey)
        } else if b[k] == 0x7d {
            Ok((acc, k + 1))
        } else if b[k] == 0x2c {
            object_at(b, k + 1, acc)
        } else if b[k] == 0x22 {
            match member_at(b, k, acc) {
                Err(e) => Err(e),
                Ok((next, j)) => object_at(b, j, next),
            }
        } else {
            Err(ErrorView::NoKey)
        }
    }
}

pub proof fn lemma_object_advances(b: Seq<u8>, i: int, acc: Fields)
    ensures
        object_at(b, i, acc) matches Ok((_, j)) ==> i < j <= b.len(),
    decreases b.len() - i,
{
    if 0 <= i <= b.len() {
        lemma_blanks_advance(b, i);
        let k = past_blanks(b, i);
        if k < b.len() {
            if b[k] == 0x2c {
                lemma_object_advances(b, k + 1, acc);
            } else if b[k] == 0x22 {
                lemma_member_advances(b, k, acc);
                match member_at(b, k, acc) {
                    Ok((next, j)) => {
                        lemma_object_advances(b, j, next);
                    },
                    Err(_) => {},
                }
            }
        }
    }
}

/// The rest of the manifest, from `i` up to its closing bracket: `acc` and the entries that follow,
/// and where the text behind it begins.
pub open spec fn entries_at(
    b: Seq<u8>,
    i: int,
    acc: Seq<EntryView>,
) -> Result<(Seq<EntryView>, int), ErrorView>
    decreases b.len() - i,
{
    if i < 0 || i > b.len() {
        Err(ErrorView::EndInArray)
    } else {
        proof {
            lemma_blanks_advance(b, i);
            lemma_object_advances(b, past_blanks(b, i) + 1, Fields::none());
        }
        let k = past_blanks(b, i);
        if k >= b.len() {
            Err(ErrorView::EndInArray)
        } else if b[k] == 0x5d {
            Ok((acc, k + 1))
        } else if b[k] == 0x2c {
            entries_at(b, k + 1, acc)
        } else if b[k] == 0x7b {
            match object_at(b, k + 1, Fields::none()) {
                Err(e) => Err(e),
                Ok((fields, j)) => match fields.entry() {
                    None => Err(ErrorView::NoName),
                    Some(entry) => entries_at(b, j, acc.push(entry)),
                },
            }
        } else {
            Err(ErrorView::NotAnObject(b[k]))
        }
    }
}

/// What a manifest says, and where the text behind its closing bracket begins.
pub open spec fn manifest_at(b: Seq<u8>) -> Result<(Seq<EntryView>, int), ErrorView> {
    let k = past_blanks(b, 0);
    if k >= b.len() || b[k] != 0x5b {
        Err(ErrorView::NoArray)
    } else {
        entries_at(b, k + 1, Seq::empty())
    }
}

/// What a manifest says. What stands behind its closing bracket does not matter.
pub open spec fn spec_manifest(b: Seq<u8>) -> Result<Seq<EntryView>, ErrorView> {
    match manifest_at(b) {
        Ok((entries, _)) => Ok(entries),
        Err(e) => Err(e),
    }
}

fn skip_ws(b: &[u8], from: usize) -> (r: usize)
    requires
        from <= b@.len(),
    ensures
        r == past_blanks(b@, from as int),
        from <= r <= b@.len(),
{
    let mut i: usize = from;
    while i < b.len() && (b[i] == 0x20 || b[i] == 0x09 || b[i] == 0x0a || b[i] == 0x0c || b[i]
        == 0x0d)
        invariant
            from <= i <= b@.len(),
            past_blanks(b@, from as int) == past_blanks(b@, i as int),
        decreases b.len() - i,
    {
        i = i + 1;
    }
    i
}

fn skip_scalar(b: &[u8], from: usize) -> (r: usize)
    requires
        from <= b@.len(),
    ensures
        r == past_scalar(b@, from as int),
        from <= r <= b@.len(),
{
    let mut i: usize = from;
    while i < b.len() && b[i] != 0x2c && b[i] != 0x7d && b[i] != 0x5d
        invariant
            from <= i <= b@.len(),
            past_scalar(b@, from as int) == past_scalar(b@, i as int),
        decreases b.len() - i,
    {
        i = i + 1;
    }
    i
}

/// Read a string from behind its opening quote; gives where the text behind it begins.
fn read_string(b: &[u8], from: usize) -> (r: Result<(String, usize), ManifestError>)
    requires
        from <= b@.len(),
    ensures
        match (r, string_at(b@, from as int, Seq::empty())) {
            (Ok((s, j)), Ok((t, k))) => s@ == t && j == k && from < j <= b@.len(),
            (Err(e), Err(f)) => e@ == f,
            _ => false,
        },
{
    let mut out: String = String::new();
    let mut i: usize = from;
    while i < b.len()
        invariant
            from <= i <= b@.len(),
            string_at(b@, from as int, Seq::empty()) == string_at(b@, i as int, out@),
        decreases b.len() - i,
    {
        let c: u8 = b[i];
        if c == 0x22 {
            return Ok((out, i + 1));
        }
        if c == 0x5c {
            if i + 1 >= b.len() {
                return Err(ManifestError::EndInEscape);
            }
            let d: u8 = b[i + 1];
            if d == 0x6e {
                out.push('\n');
            } else if d == 0x74 {
                out.push('\t');
            } else {
                out.push(d as char);
            }
            i = i + 2;
        } else {
            out.push(c as char);
            i = i + 1;
        }
    }
    Err(ManifestError::EndInString)
}

/// Read an array of strings from behind its opening bracket.
fn read_array(b: &[u8], from: usize) -> (r: Result<(Categories, usize), ManifestError>)
    requires
        from <= b@.len(),
    ensures
        match (r, array_at(b@, from as int, Set::empty())) {
            (Ok((s, j)), Ok((t, k))) => s.wf() && s@ == t && j == k && from < j <= b@.len(),
            (Err(e), Err(f)) => e@ == f,
            _ => false,
        },
{
    let mut out: Categories = Categories::new();
    let mut i: usize = from;
    loop
        invariant
            from <= i <= b@.len(),
            out.wf(),
            array_at(b@, from as int, Set::empty()) == array_at(b@, i as int, out@),
        decreases b.len() - i,
    {
        let k: usize = skip_ws(b, i);
        if k >= b.len() {
            return Err(ManifestError::NotAStringInArray);
        }
        let c: u8 = b[k];
        if c == 0x5d {
            return Ok((out, k + 1));
        } else if c == 0x2c {
            i = k + 1;
        } else if c == 0x22 {
            match read_string(b, k + 1) {
                Err(e) => {
                    return Err(e);
                },
                Ok((s, j)) => {
                    out.insert(s);
                    i = j;
                },
            }
        } else {
            return Err(ManifestError::NotAStringInArray);
        }
    }
}

/// What an object has given so far.
struct Gathered {
    name: Option<String>,
    kind: Option<FileKind>,
    categories: Categories,
}

impl Gathered {
    spec fn view(&self) -> Fields {
        Fields {
            name: match self.name {
                Some(n) => Some(n@),
                None => None,
            },
            kind: match self.kind {
                Some(k) => Some(k@),
                None => None,
            },
            categories: self.categories@,
        }
    }
}

/// Read one key and its value from the key's opening quote on.
fn read_member(b: &[u8], at: usize, got: &mut Gathered) -> (r: Result<usize, ManifestError>)
    requires
        at < b@.len(),
        old(got).categories.wf(),
    ensures
        final(got).categories.wf(),
        match (r, member_at(b@, at as int, old(got)@)) {
            (Ok(j), Ok((fields, k))) => final(got)@ == fields && j == k && at < j <= b@.len(),
            (Err(e), Err(f)) => e@ == f,
            _ => false,
        },
{
    let n: usize = b.len();
    let (key, after): (String, usize) = match read_string(b, at + 1) {
        Err(e) => {
            return Err(e);
        },
        Ok(found) => found,
    };
    let colon: usize = skip_ws(b, after);
    if colon >= b.len() || b[colon] != 0x3a {
        return Err(ManifestError::NoColon(key));
    }
    let v: usize = skip_ws(b, colon + 1);
    if v < b.len() && b[v] == 0x22 {
        match read_string(b, v + 1) {
            Err(e) => Err(e),
            Ok((s, j)) => {
                if same_text(key.as_str(), "name") {
                    got.name = Some(s);
                } else if same_text(key.as_str(), "type") {
                    got.kind = Some(FileKind::parse(s.as_str()));
                }
                Ok(j)
            },
        }
    } else if v < b.len() && b[v] == 0x5b {
        match read_array(b, v + 1) {
            Err(e) => Err(e),
            Ok((s, j)) => {
                if same_text(key.as_str(), "category") {
                    got.categories.extend(&s);
                }
                Ok(j)
            },
        }
    } else {
        let j: usize = skip_scalar(b, v);
        Ok(j)
    }
}

/// Read an object from behind its opening brace.
fn read_object(b: &[u8], from: usize) -> (r: Result<(Gathered, usize), ManifestError>)
    requires
        from <= b@.len(),
    ensures
        match (r, object_at(b@, from as int, Fields::none())) {
            (Ok((g, j)), Ok((fields, k))) => g.categories.wf() && g@ == fields && j == k && from < j
                <= b@.len(),
            (Err(e), Err(f)) => e@ == f,
            _ => false,
        },
{
    let mut got: Gathered = Gathered { name: None, kind: None, categories: Categories::new() };
    assert(got@ =~= Fields::none());
    let mut i: usize = from;
    loop
        invariant
            from <= i <= b@.len(),
            got.categories.wf(),
            object_at(b@, from as int, Fields::none()) == object_at(b@, i as int, got@),
        decreases b.len() - i,
    {
        let k: usize = skip_ws(b, i);
        if k >= b.len() {
            return Err(ManifestError::NoKey);
        }
        let c: u8 = b[k];
        if c == 0x7d {
            return Ok((got, k + 1));
        } else if c == 0x2c {
            i = k + 1;
        } else if c == 0x22 {
            match read_member(b, k, &mut got) {
                Err(e) => {
                    return Err(e);
                },
                Ok(j) => {
                    i = j;
                },
            }
        } else {
            return Err(ManifestError::NoKey);
        }
    }
}

/// Parse a driver manifest.
pub fn parse_entries(src: &str) -> (r: Result<Vec<Entry>, ManifestError>)
    ensures
        match (r, spec_manifest(encode_utf8(src@))) {
            (Ok(entries), Ok(views)) => entries_wf(entries@) && entry_views(entries@) == views,
            (Err(e), Err(f)) => e@ == f,
            _ => false,
        },
{
    let b: &[u8] = src.as_bytes();
    let start: usize = skip_ws(b, 0);
    if start >= b.len() || b[start] != 0x5b {
        return Err(ManifestError::NoArray);
    }
    let mut entries: Vec<Entry> = Vec::new();
    let mut i: usize = start + 1;
    assert(entry_views(entries@) =~= Seq::<EntryView>::empty());
    loop
        invariant
            b@ == encode_utf8(src@),
            i <= b@.len(),
            entries_wf(entries@),
            manifest_at(b@) == entries_at(b@, i as int, entry_views(entries@)),
        decreases b.len() - i,
    {
        let k: usize = skip_ws(b, i);
        if k >= b.len() {
            return Err(ManifestError::EndInArray);
        }
        let c: u8 = b[k];
        if c == 0x5d {
            return Ok(entries);
        } else if c == 0x2c {
            i = k + 1;
        } else if c == 0x7b {
            match read_object(b, k + 1) {
                Err(e) => {
                    return Err(e);
                },
                Ok((got, j)) => {
                    let ghost fields = got@;
                    let name: String = match got.name {
                        Some(n) => n,
                        None => {
                            return Err(ManifestError::NoName);
                        },
                    };
                    let kind: FileKind = match got.kind {
                        Some(k) => k,
                        None => FileKind::Other(String::new()),
                    };
                    let entry: Entry = Entry { name, kind, categories: got.categories };
                    let ghost before = entry_views(entries@);
                    assert(Some(entry@) == fields.entry());
                    entries.push(entry);
                    assert(entry_views(entries@) =~= before.push(entry@));
                    i = j;
                },
            }
        } else {
            return Err(ManifestError::NotAnObject(c));
        }
    }
}

/// Parse a driver manifest, saying in words what is wrong with one that cannot be read.
pub fn parse_manifest(src: &str) -> (r: Result<Vec<Entry>, String>)
    ensures
        match (r, spec_manifest(encode_utf8(src@))) {
            (Ok(entries), Ok(views)) => entries_wf(entries@) && entry_views(entries@) == views,
            (Err(text), Err(f)) => text@ == f.text(),
            _ => false,
        },
{
    match parse_entries(src) {
        Ok(entries) => Ok(entries),
        Err(e) => Err(e.to_string()),
    }
}

/// A field that is not modelled loses nothing: whatever its value, what the object has given stays
/// as it was, and reading goes on behind it.
pub proof fn law_unmodelled_fields_change_nothing(b: Seq<u8>, i: int, acc: Fields)
    requires
        0 <= i < b.len(),
        string_at(b, i + 1, Seq::empty()) matches Ok((key, _)) && key != "name"@ && key != "type"@
            && key != "category"@,
    ensures
        member_at(b, i, acc) matches Ok((fields, j)) ==> fields == acc && i < j <= b.len(),
{
    lemma_member_advances(b, i, acc);
}

} // verus!
