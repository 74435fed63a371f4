//! Schema-driven decoding engine.
//!
//! A [`MappingIter`] is a cursor with one slot of lookahead over the
//! tokenizer's definitions; a [`Deserializer`] pulls definitions from it on
//! demand.  The engine never infers shape from content: each decode is
//! driven by the shape the caller requests, and a mismatch between the
//! notation's content and the requested shape surfaces as a typed error.

use vstd::prelude::*;
use crate::error::Error;
use crate::intparse;
use crate::intparse::{IntKind, IntVal, int_val_kind, int_val_value, spec_parse};
use crate::lines::{Define, DefineView, defs_view, is_space, is_space_char, spec_defs, tokenize};

verus! {

/// A scalar shape a consumer may request for one token of value text.
#[derive(Debug, Clone, Copy, PartialEq, Eq, Structural)]
pub enum Scalar {
    Bool,
    Char,
    Int(IntKind),
    Text,
}

/// The shape a consumer may request for one definition's value.
///
/// `Scalar` consumes one definition and converts its whole value text.
/// `List` consumes one definition and converts each whitespace-separated
/// token of its value.  `Optional` eagerly attempts the inner decode: this
/// version does not distinguish an absent value from a present one.
/// `Enum` always fails (the notation's grammar cannot represent enums),
/// and `Float`, `Bytes` and `Any` are unimplemented shapes that fail
/// loudly instead of producing a value.
#[derive(Debug, Clone, Copy, PartialEq, Eq, Structural)]
pub enum Request {
    Scalar(Scalar),
    List(Scalar),
    Optional(Scalar),
    Enum,
    Float,
    Bytes,
    Any,
}

/// One named field of a record shape.
#[derive(Debug, Clone)]
pub struct Field {
    pub name: String,
    pub shape: Request,
}

/// The target shape a consumer declares for a whole decode call.
#[derive(Debug, Clone)]
pub enum Shape {
    /// A single value of the given request shape.
    Single(Request),
    /// The unit value: succeeds unconditionally, consuming nothing.
    Unit,
    /// A record: every remaining definition keyed by one of the named
    /// fields, each value decoded as its field's request.
    Record(Vec<Field>),
    /// A homogeneous mapping: every remaining definition's key paired
    /// with its value decoded as the given request.
    Mapping(Request),
}

/// A decoded value, owned entirely by the caller.
#[derive(Debug)]
pub enum Value {
    Bool(bool),
    Char(char),
    Int(IntVal),
    Text(String),
    Unit,
    List(Vec<Value>),
    Record(Vec<(String, Value)>),
}

/// Cursor over the definition stream, with peek and consume as the only
/// operations.  Peeking never advances; peeking is idempotent.
pub struct MappingIter {
    pub defs: Vec<Define>,
    pub pos: usize,
}

impl MappingIter {
    /// All definitions of the stream, as their mathematical images.
    pub open spec fn defs_v(self) -> Seq<DefineView> {
        defs_view(self.defs@)
    }

    /// The cursor never points past the end of the stream.
    pub open spec fn wf(self) -> bool {
        self.pos <= self.defs@.len()
    }

    /// No definition remains.
    pub open spec fn at_end(self) -> bool {
        self.pos == self.defs@.len()
    }

    /// The current (not yet consumed) definition.
    pub open spec fn cur(self) -> DefineView
        recommends
            self.wf(),
            !self.at_end(),
    {
        self.defs_v()[self.pos as int]
    }

    /// Create a new key/value mapping cursor over a definition stream.
    pub fn new(defs: Vec<Define>) -> (it: Self)
        ensures
            it.defs@ == defs@,
            it.pos == 0,
            it.wf(),
    {
        MappingIter { defs, pos: 0 }
    }

    /// Check whether a usable definition remains: `Ok(false)` at end of
    /// input, `Ok(true)` when the current definition is valid, and the
    /// buffered malformed line's failure otherwise.  Never advances.
    pub fn check_key(&mut self) -> (r: Result<bool, Error>)
        requires
            old(self).wf(),
        ensures
            *final(self) == *old(self),
            old(self).at_end() ==> r == Ok::<bool, Error>(false),
            !old(self).at_end() ==> match old(self).cur() {
                DefineView::Valid { .. } => r == Ok::<bool, Error>(true),
                DefineView::Invalid { err, line } => r == Err::<bool, Error>(
                    Error::FailedParse(err, line as usize),
                ),
            },
    {
        if self.pos == self.defs.len() {
            return Ok(false);
        }
        match &self.defs[self.pos] {
            Define::Valid { .. } => Ok(true),
            Define::Invalid { err, line } => Err(Error::FailedParse(*err, *line)),
        }
    }

    /// Peek the current key without consuming it: `Err(Eof)` at end of
    /// input, the malformed line's failure on an invalid definition.
    pub fn peek_key(&mut self) -> (r: Result<String, Error>)
        requires
            old(self).wf(),
        ensures
            *final(self) == *old(self),
            old(self).at_end() ==> r == Err::<String, Error>(Error::Eof),
            !old(self).at_end() ==> match old(self).cur() {
                DefineView::Valid { key, .. } => r matches Ok(k) && k@ == key,
                DefineView::Invalid { err, line } => r == Err::<String, Error>(
                    Error::FailedParse(err, line as usize),
                ),
            },
    {
        if self.pos == self.defs.len() {
            return Err(Error::Eof);
        }
        match &self.defs[self.pos] {
            Define::Valid { key, .. } => Ok(key.clone()),
            Define::Invalid { err, line } => Err(Error::FailedParse(*err, *line)),
        }
    }

    /// Consume the current definition and return its value text:
    /// `Err(Eof)` at end of input, the malformed line's failure on an
    /// invalid definition.  A peeked key and the value consumed right
    /// after it belong to the same definition.
    pub fn get_value(&mut self) -> (r: Result<String, Error>)
        requires
            old(self).wf(),
        ensures
            final(self).wf(),
            final(self).defs == old(self).defs,
            old(self).at_end() ==> r == Err::<String, Error>(Error::Eof) && *final(self)
                == *old(self),
            !old(self).at_end() ==> final(self).pos == old(self).pos + 1 && match old(
                self,
            ).cur() {
                DefineView::Valid { value, .. } => r matches Ok(v) && v@ == value,
                DefineView::Invalid { err, line } => r == Err::<String, Error>(
                    Error::FailedParse(err, line as usize),
                ),
            },
    {
        if self.pos == self.defs.len() {
            return Err(Error::Eof);
        }
        let r = match &self.defs[self.pos] {
            Define::Valid { value, .. } => Ok(value.clone()),
            Define::Invalid { err, line } => Err(Error::FailedParse(*err, *line)),
        };
        self.pos = self.pos + 1;
        r
    }
}

/// Character-for-character string equality.
fn str_eq(a: &str, b: &str) -> (r: bool)
    ensures
        r == (a@ == b@),
{
    let na = a.unicode_len();
    let nb = b.unicode_len();
    if na != nb {
        proof {
            if a@ == b@ {
                assert(a@.len() == b@.len());
            }
        }
        return false;
    }
    let mut i: usize = 0;
    while i < na
        invariant
            i <= na == a@.len(),
            na == nb == b@.len(),
            forall|j: int| 0 <= j < i ==> a@[j] == b@[j],
        decreases na - i,
    {
        if a.get_char(i) != b.get_char(i) {
            return false;
        }
        i = i + 1;
    }
    proof {
        assert(a@ =~= b@);
    }
    true
}

/// What decoding one value text as a boolean yields: exactly `true` or
/// `false`, case-sensitively; anything else is an error.
pub open spec fn spec_bool_of(t: Seq<char>) -> Result<bool, Error> {
    if t == "true"@ {
        Ok(true)
    } else if t == "false"@ {
        Ok(false)
    } else {
        Err(Error::ExpectedBoolean)
    }
}

/// What decoding one value text as a character yields: its only
/// character; zero or several characters is an error.
pub open spec fn spec_char_of(t: Seq<char>) -> Result<char, Error> {
    if t.len() == 1 {
        Ok(t[0])
    } else {
        Err(Error::ExpectedChar)
    }
}

/// Whether `r` is the outcome of decoding value text `t` as an integer of
/// kind `k`: the denoted in-range number, or an integer error.
pub open spec fn int_decodes(k: IntKind, t: Seq<char>, r: Result<IntVal, Error>) -> bool {
    match spec_parse(k, t) {
        Some(v) => r matches Ok(iv) && int_val_kind(iv) == k && int_val_value(iv) == v,
        None => r == Err::<IntVal, Error>(Error::ExpectedInteger),
    }
}

/// Decodes value text as a boolean.
pub fn bool_of_text(t: &str) -> (r: Result<bool, Error>)
    ensures
        r == spec_bool_of(t@),
{
    if str_eq(t, "true") {
        Ok(true)
    } else if str_eq(t, "false") {
        Ok(false)
    } else {
        Err(Error::ExpectedBoolean)
    }
}

/// Decodes value text as a single character.
pub fn char_of_text(t: &str) -> (r: Result<char, Error>)
    ensures
        r == spec_char_of(t@),
{
    if t.unicode_len() == 1 {
        Ok(t.get_char(0))
    } else {
        Err(Error::ExpectedChar)
    }
}

/// Decodes value text as an integer of the requested kind.
pub fn int_of_text(t: &str, k: IntKind) -> (r: Result<IntVal, Error>)
    ensures
        int_decodes(k, t@, r),
{
    match intparse::from_str(t, k) {
        Some(iv) => Ok(iv),
        None => Err(Error::ExpectedInteger),
    }
}

/// The decoding engine: pulls definitions from its cursor as the caller's
/// shape requests dictate.
pub struct Deserializer {
    pub mappings: MappingIter,
}

impl Deserializer {
    pub open spec fn wf(self) -> bool {
        self.mappings.wf()
    }

    pub open spec fn defs_v(self) -> Seq<DefineView> {
        self.mappings.defs_v()
    }

    pub open spec fn pos(self) -> int {
        self.mappings.pos as int
    }

    pub open spec fn at_end(self) -> bool {
        self.mappings.at_end()
    }

    pub open spec fn cur(self) -> DefineView
        recommends
            self.wf(),
            !self.at_end(),
    {
        self.mappings.cur()
    }

    /// Create a decoding engine over the definitions of `input`.
    pub fn from_str(input: &str) -> (d: Self)
        requires
            input@.len() < usize::MAX,
        ensures
            d.defs_v() == spec_defs(input@, 1),
            d.pos() == 0,
            d.wf(),
    {
        let mappings = MappingIter::new(tokenize(input));
        Deserializer { mappings }
    }

    /// Check if a usable definition remains (see [`MappingIter::check_key`]).
    pub fn check_key(&mut self) -> (r: Result<bool, Error>)
        requires
            old(self).wf(),
        ensures
            *final(self) == *old(self),
            old(self).at_end() ==> r == Ok::<bool, Error>(false),
            !old(self).at_end() ==> match old(self).cur() {
                DefineView::Valid { .. } => r == Ok::<bool, Error>(true),
                DefineView::Invalid { err, line } => r == Err::<bool, Error>(
                    Error::FailedParse(err, line as usize),
                ),
            },
    {
        self.mappings.check_key()
    }

    /// Peek the current key (see [`MappingIter::peek_key`]).
    pub fn peek_key(&mut self) -> (r: Result<String, Error>)
        requires
            old(self).wf(),
        ensures
            *final(self) == *old(self),
            old(self).at_end() ==> r == Err::<String, Error>(Error::Eof),
            !old(self).at_end() ==> match old(self).cur() {
                DefineView::Valid { key, .. } => r matches Ok(k) && k@ == key,
                DefineView::Invalid { err, line } => r == Err::<String, Error>(
                    Error::FailedParse(err, line as usize),
                ),
            },
    {
        self.mappings.peek_key()
    }

    /// Consume the current definition and return its value text (see
    /// [`MappingIter::get_value`]).
    pub fn get_value(&mut self) -> (r: Result<String, Error>)
        requires
            old(self).wf(),
        ensures
            final(self).wf(),
            final(self).defs_v() == old(self).defs_v(),
            old(self).at_end() ==> r == Err::<String, Error>(Error::Eof) && *final(self)
                == *old(self),
            !old(self).at_end() ==> final(self).pos() == old(self).pos() + 1 && match old(
                self,
            ).cur() {
                DefineView::Valid { value, .. } => r matches Ok(v) && v@ == value,
                DefineView::Invalid { err, line } => r == Err::<String, Error>(
                    Error::FailedParse(err, line as usize),
                ),
            },
    {
        self.mappings.get_value()
    }

    /// Decodes one definition's value as text, returned unmodified.
    pub fn parse_text(&mut self) -> (r: Result<String, Error>)
        requires
            old(self).wf(),
        ensures
            final(self).wf(),
            final(self).defs_v() == old(self).defs_v(),
            old(self).at_end() ==> r == Err::<String, Error>(Error::Eof) && *final(self)
                == *old(self),
            !old(self).at_end() ==> final(self).pos() == old(self).pos() + 1 && match old(
                self,
            ).cur() {
                DefineView::Valid { value, .. } => r matches Ok(v) && v@ == value,
                DefineView::Invalid { err, line } => r == Err::<String, Error>(
                    Error::FailedParse(err, line as usize),
                ),
            },
    {
        self.get_value()
    }

    /// Decodes one definition's value as a character.
    pub fn parse_char(&mut self) -> (r: Result<char, Error>)
        requires
            old(self).wf(),
        ensures
            final(self).wf(),
            final(self).defs_v() == old(self).defs_v(),
            old(self).at_end() ==> r == Err::<char, Error>(Error::Eof) && *final(self)
                == *old(self),
            !old(self).at_end() ==> final(self).pos() == old(self).pos() + 1 && match old(
                self,
            ).cur() {
                DefineView::Valid { value, .. } => r == spec_char_of(value),
                DefineView::Invalid { err, line } => r == Err::<char, Error>(
                    Error::FailedParse(err, line as usize),
                ),
            },
    {
        match self.get_value() {
            Ok(v) => char_of_text(v.as_str()),
            Err(e) => Err(e),
        }
    }

    /// Decodes one definition's value as a boolean.
    pub fn parse_bool(&mut self) -> (r: Result<bool, Error>)
        requires
            old(self).wf(),
        ensures
            final(self).wf(),
            final(self).defs_v() == old(self).defs_v(),
            old(self).at_end() ==> r == Err::<bool, Error>(Error::Eof) && *final(self)
                == *old(self),
            !old(self).at_end() ==> final(self).pos() == old(self).pos() + 1 && match old(
                self,
            ).cur() {
                DefineView::Valid { value, .. } => r == spec_bool_of(value),
                DefineView::Invalid { err, line } => r == Err::<bool, Error>(
                    Error::FailedParse(err, line as usize),
                ),
            },
    {
        match self.get_value() {
            Ok(v) => bool_of_text(v.as_str()),
            Err(e) => Err(e),
        }
    }

    /// Decodes one definition's value as an integer of the requested kind.
    pub fn parse_int(&mut self, kind: IntKind) -> (r: Result<IntVal, Error>)
        requires
            old(self).wf(),
        ensures
            final(self).wf(),
            final(self).defs_v() == old(self).defs_v(),
            old(self).at_end() ==> r == Err::<IntVal, Error>(Error::Eof) && *final(self)
                == *old(self),
            !old(self).at_end() ==> final(self).pos() == old(self).pos() + 1 && match old(
                self,
            ).cur() {
                DefineView::Valid { value, .. } => int_decodes(kind, value, r),
                DefineView::Invalid { err, line } => r == Err::<IntVal, Error>(
                    Error::FailedParse(err, line as usize),
                ),
            },
    {
        match self.get_value() {
            Ok(v) => int_of_text(v.as_str(), kind),
            Err(e) => Err(e),
        }
    }
}

/// Length of the leading run of non-space characters of `s`.
pub open spec fn token_end(s: Seq<char>) -> nat
    decreases s.len(),
{
    if s.len() == 0 {
        0
    } else if is_space(s[0]) {
        0
    } else {
        1 + token_end(s.drop_first())
    }
}

/// The whitespace-separated tokens of one value text, in left-to-right
/// order.
pub open spec fn tokens_of(s: Seq<char>) -> Seq<Seq<char>>
    decreases s.len(),
{
    if s.len() == 0 {
        Seq::<Seq<char>>::empty()
    } else if is_space(s[0]) {
        tokens_of(s.drop_first())
    } else {
        let k = token_end(s);
        if 1 <= k <= s.len() {
            seq![s.subrange(0, k as int)] + tokens_of(s.subrange(k as int, s.len() as int))
        } else {
            Seq::<Seq<char>>::empty()
        }
    }
}

/// The views of a sequence of token strings.
pub open spec fn toks_view(ts: Seq<String>) -> Seq<Seq<char>> {
    ts.map_values(|t: String| t@)
}

/// A scan that saw no space before `i`, and a space (or the end) at `i`,
/// has found the end of the leading token.
proof fn lemma_token_end(s: Seq<char>, i: int)
    requires
        0 <= i <= s.len(),
        forall|j: int| 0 <= j < i ==> !is_space(s[j]),
        i == s.len() || is_space(s[i]),
    ensures
        token_end(s) == i,
    decreases i,
{
    if i > 0 {
        lemma_token_end(s.drop_first(), i - 1);
    }
}

/// Splits one value text into its whitespace-separated tokens.
pub fn split_tokens(s: &str) -> (toks: Vec<String>)
    ensures
        toks_view(toks@) == tokens_of(s@),
{
    let n = s.unicode_len();
    let mut toks: Vec<String> = Vec::new();
    let mut i: usize = 0;
    proof {
        assert(s@.skip(0) =~= s@);
        assert(toks_view(toks@) + tokens_of(s@) =~= tokens_of(s@));
    }
    while i < n
        invariant
            i <= n == s@.len(),
            toks_view(toks@) + tokens_of(s@.skip(i as int)) == tokens_of(s@),
        decreases n - i,
    {
        if is_space_char(s.get_char(i)) {
            proof {
                assert(s@.skip(i as int).drop_first() =~= s@.skip(i as int + 1));
            }
            i = i + 1;
        } else {
            let ghost prev = toks_view(toks@);
            let start = i;
            let mut j = i;
            while j < n && !is_space_char(s.get_char(j))
                invariant
                    start <= j <= n == s@.len(),
                    forall|t: int| start <= t < j ==> !is_space(s@[t]),
                decreases n - j,
            {
                j = j + 1;
            }
            let ghost rest = s@.skip(start as int);
            proof {
                assert(forall|t: int| 0 <= t < j - start ==> rest[t] == s@[start + t]);
                lemma_token_end(rest, j - start as int);
                assert(rest.subrange(0, j - start as int) =~= s@.subrange(
                    start as int,
                    j as int,
                ));
                assert(rest.subrange(j - start as int, rest.len() as int) =~= s@.skip(
                    j as int,
                ));
            }
            let tok = String::from_str(s.substring_char(start, j));
            toks.push(tok);
            proof {
                assert(toks_view(toks@) =~= prev.push(s@.subrange(start as int, j as int)));
                assert(toks_view(toks@) + tokens_of(s@.skip(j as int)) =~= tokens_of(s@));
            }
            i = j;
        }
    }
    proof {
        assert(s@.skip(n as int) =~= Seq::<char>::empty());
        assert(toks_view(toks@) =~= tokens_of(s@));
    }
    toks
}

/// The error, if any, that decoding one token `t` as scalar `sc` yields.
pub open spec fn scalar_err(sc: Scalar, t: Seq<char>) -> Option<Error> {
    match sc {
        Scalar::Bool => if t == "true"@ || t == "false"@ {
            None
        } else {
            Some(Error::ExpectedBoolean)
        },
        Scalar::Char => if t.len() == 1 {
            None
        } else {
            Some(Error::ExpectedChar)
        },
        Scalar::Int(k) => if spec_parse(k, t) is Some {
            None
        } else {
            Some(Error::ExpectedInteger)
        },
        Scalar::Text => None,
    }
}

/// Whether `r` is the outcome of decoding one token `t` as scalar `sc`.
pub open spec fn scalar_decodes(sc: Scalar, t: Seq<char>, r: Result<Value, Error>) -> bool {
    match sc {
        Scalar::Bool => match spec_bool_of(t) {
            Ok(b) => r == Ok::<Value, Error>(Value::Bool(b)),
            Err(e) => r == Err::<Value, Error>(e),
        },
        Scalar::Char => match spec_char_of(t) {
            Ok(c) => r == Ok::<Value, Error>(Value::Char(c)),
            Err(e) => r == Err::<Value, Error>(e),
        },
        Scalar::Int(k) => match spec_parse(k, t) {
            Some(v) => (r matches Ok(val) && val matches Value::Int(iv) && int_val_kind(iv)
                == k && int_val_value(iv) == v),
            None => r == Err::<Value, Error>(Error::ExpectedInteger),
        },
        Scalar::Text => r matches Ok(val) && val matches Value::Text(s) && s@ == t,
    }
}

/// The error, if any, that decoding tokens `toks` as a list of `sc`
/// yields: the first failing token's error.
pub open spec fn list_err(sc: Scalar, toks: Seq<Seq<char>>) -> Option<Error>
    decreases toks.len(),
{
    if toks.len() == 0 {
        None
    } else {
        match scalar_err(sc, toks[0]) {
            Some(e) => Some(e),
            None => list_err(sc, toks.drop_first()),
        }
    }
}

/// Whether `r` is the outcome of decoding tokens `toks` as a list of
/// `sc`: exactly one element per token, in original order, or the first
/// failing token's error.
pub open spec fn list_decodes(sc: Scalar, toks: Seq<Seq<char>>, r: Result<Value, Error>) -> bool {
    match list_err(sc, toks) {
        Some(e) => r == Err::<Value, Error>(e),
        None => (r matches Ok(val) && val matches Value::List(vs) && vs@.len() == toks.len()
            && forall|i: int|
                0 <= i < toks.len() ==> scalar_decodes(sc, toks[i], Ok(vs@[i]))),
    }
}

/// The error, if any, that decoding value text `v` as request `req`
/// yields.
pub open spec fn request_err(req: Request, v: Seq<char>) -> Option<Error> {
    match req {
        Request::Scalar(sc) => scalar_err(sc, v),
        Request::List(sc) => list_err(sc, tokens_of(v)),
        Request::Optional(sc) => scalar_err(sc, v),
        Request::Enum => Some(Error::ExpectedEnum),
        Request::Float => Some(Error::Unimplemented),
        Request::Bytes => Some(Error::Unimplemented),
        Request::Any => Some(Error::Unimplemented),
    }
}

/// Whether `r` is the outcome of decoding value text `v` as request
/// `req`.
pub open spec fn request_decodes(req: Request, v: Seq<char>, r: Result<Value, Error>) -> bool {
    match req {
        Request::Scalar(sc) => scalar_decodes(sc, v, r),
        Request::List(sc) => list_decodes(sc, tokens_of(v), r),
        Request::Optional(sc) => scalar_decodes(sc, v, r),
        Request::Enum => r == Err::<Value, Error>(Error::ExpectedEnum),
        Request::Float => r == Err::<Value, Error>(Error::Unimplemented),
        Request::Bytes => r == Err::<Value, Error>(Error::Unimplemented),
        Request::Any => r == Err::<Value, Error>(Error::Unimplemented),
    }
}

/// An outcome determines the error answer: a decode that succeeded has no
/// error, and a failed one fails with exactly the predicted error.
proof fn lemma_request_err(req: Request, v: Seq<char>, r: Result<Value, Error>)
    requires
        request_decodes(req, v, r),
    ensures
        r is Ok <==> request_err(req, v) is None,
        r matches Err(e) ==> request_err(req, v) == Some(e),
{
}

/// The request declared for `key`: that of the first field named `key`.
pub open spec fn field_lookup(fields: Seq<Field>, key: Seq<char>) -> Option<Request>
    decreases fields.len(),
{
    if fields.len() == 0 {
        None
    } else if fields[0].name@ == key {
        Some(fields[0].shape)
    } else {
        field_lookup(fields.drop_first(), key)
    }
}

/// Whether record entry `e` is the decoding of definition `d` under
/// `fields`: same key, value decoded as the field's request.
pub open spec fn entry_decodes(d: DefineView, fields: Seq<Field>, e: (String, Value)) -> bool {
    &&& d matches DefineView::Valid { key, value, .. }
    &&& e.0@ == key
    &&& field_lookup(fields, key) matches Some(req) && request_decodes(req, value, Ok(e.1))
}

/// The error, if any, that decoding the definitions from `pos` on as a
/// record with `fields` yields.  A key naming no field asks for a fully
/// generic decode, which is unimplemented.
pub open spec fn entries_err(defs: Seq<DefineView>, pos: int, fields: Seq<Field>) -> Option<
    Error,
>
    decreases defs.len() - pos,
{
    if pos < 0 || pos >= defs.len() {
        None
    } else {
        match defs[pos] {
            DefineView::Invalid { err, line } => Some(Error::FailedParse(err, line as usize)),
            DefineView::Valid { key, value, .. } => match field_lookup(fields, key) {
                None => Some(Error::Unimplemented),
                Some(req) => match request_err(req, value) {
                    Some(e) => Some(e),
                    None => entries_err(defs, pos + 1, fields),
                },
            },
        }
    }
}

/// Whether `r` is the outcome of decoding the definitions from `pos` on
/// as a record with `fields`: one entry per definition, keys in source
/// order, or the first failure.
pub open spec fn entries_decode(
    defs: Seq<DefineView>,
    pos: int,
    fields: Seq<Field>,
    r: Result<Value, Error>,
) -> bool {
    match entries_err(defs, pos, fields) {
        Some(e) => r == Err::<Value, Error>(e),
        None => (r matches Ok(val) && val matches Value::Record(es) && es@.len() == defs.len()
            - pos && forall|i: int|
                0 <= i < es@.len() ==> entry_decodes(defs[pos + i], fields, es@[i])),
    }
}

/// Whether mapping entry `e` is the decoding of definition `d` with the
/// mapping's value request `req`.
pub open spec fn mapping_entry_decodes(d: DefineView, req: Request, e: (String, Value)) -> bool {
    &&& d matches DefineView::Valid { key, value, .. }
    &&& e.0@ == key
    &&& request_decodes(req, value, Ok(e.1))
}

/// The error, if any, that decoding the definitions from `pos` on as a
/// mapping with value request `req` yields.
pub open spec fn mapping_err(defs: Seq<DefineView>, pos: int, req: Request) -> Option<Error>
    decreases defs.len() - pos,
{
    if pos < 0 || pos >= defs.len() {
        None
    } else {
        match defs[pos] {
            DefineView::Invalid { err, line } => Some(Error::FailedParse(err, line as usize)),
            DefineView::Valid { value, .. } => match request_err(req, value) {
                Some(e) => Some(e),
                None => mapping_err(defs, pos + 1, req),
            },
        }
    }
}

/// Whether `r` is the outcome of decoding the definitions from `pos` on
/// as a mapping with value request `req`: one entry per definition, keys
/// in original source order, or the first failure.
pub open spec fn mapping_decode(
    defs: Seq<DefineView>,
    pos: int,
    req: Request,
    r: Result<Value, Error>,
) -> bool {
    match mapping_err(defs, pos, req) {
        Some(e) => r == Err::<Value, Error>(e),
        None => (r matches Ok(val) && val matches Value::Record(es) && es@.len() == defs.len()
            - pos && forall|i: int|
                0 <= i < es@.len() ==> mapping_entry_decodes(defs[pos + i], req, es@[i])),
    }
}

/// Whether `r` is the outcome of decoding the definitions from `pos` on
/// as the target shape `shape`.
pub open spec fn spec_decodes(
    defs: Seq<DefineView>,
    pos: int,
    shape: Shape,
    r: Result<Value, Error>,
) -> bool {
    match shape {
        Shape::Single(req) => match req {
            Request::Enum => r == Err::<Value, Error>(Error::ExpectedEnum),
            Request::Float | Request::Bytes | Request::Any => r == Err::<Value, Error>(
                Error::Unimplemented,
            ),
            _ => if pos >= defs.len() {
                r == Err::<Value, Error>(Error::Eof)
            } else {
                match defs[pos] {
                    DefineView::Valid { value, .. } => request_decodes(req, value, r),
                    DefineView::Invalid { err, line } => r == Err::<Value, Error>(
                        Error::FailedParse(err, line as usize),
                    ),
                }
            },
        },
        Shape::Unit => r == Ok::<Value, Error>(Value::Unit),
        Shape::Record(fields) => entries_decode(defs, pos, fields@, r),
        Shape::Mapping(req) => mapping_decode(defs, pos, req, r),
    }
}

/// Decodes one token as a scalar value.
pub fn scalar_of_text(sc: Scalar, t: &str) -> (r: Result<Value, Error>)
    ensures
        scalar_decodes(sc, t@, r),
{
    match sc {
        Scalar::Bool => match bool_of_text(t) {
            Ok(b) => Ok(Value::Bool(b)),
            Err(e) => Err(e),
        },
        Scalar::Char => match char_of_text(t) {
            Ok(c) => Ok(Value::Char(c)),
            Err(e) => Err(e),
        },
        Scalar::Int(k) => match int_of_text(t, k) {
            Ok(iv) => Ok(Value::Int(iv)),
            Err(e) => Err(e),
        },
        Scalar::Text => Ok(Value::Text(String::from_str(t))),
    }
}

/// Decodes one value text as a list: one element per whitespace-separated
/// token.
pub fn list_of_text(sc: Scalar, text: &str) -> (r: Result<Value, Error>)
    ensures
        list_decodes(sc, tokens_of(text@), r),
{
    let toks = split_tokens(text);
    let ghost toks_s = tokens_of(text@);
    let mut vals: Vec<Value> = Vec::new();
    let mut i: usize = 0;
    proof {
        assert(toks_s.skip(0) =~= toks_s);
    }
    while i < toks.len()
        invariant
            i <= toks.len(),
            toks_s == tokens_of(text@),
            toks_view(toks@) == toks_s,
            vals@.len() == i,
            forall|idx: int| 0 <= idx < i ==> scalar_decodes(sc, toks_s[idx], Ok(vals@[idx])),
            list_err(sc, toks_s.skip(i as int)) == list_err(sc, toks_s),
        decreases toks.len() - i,
    {
        let ghost rest = toks_s.skip(i as int);
        proof {
            assert(rest[0] == toks_s[i as int]);
            assert(toks@[i as int]@ == toks_s[i as int]);
            assert(rest.drop_first() =~= toks_s.skip(i as int + 1));
        }
        match scalar_of_text(sc, toks[i].as_str()) {
            Ok(v) => {
                proof {
                    assert(scalar_err(sc, rest[0]) is None);
                    assert(list_err(sc, rest) == list_err(sc, rest.drop_first()));
                }
                vals.push(v);
                i = i + 1;
            },
            Err(e) => {
                proof {
                    assert(scalar_err(sc, rest[0]) == Some(e));
                    assert(list_err(sc, rest) == Some(e));
                }
                return Err(e);
            },
        }
    }
    proof {
        assert(toks_s.skip(toks@.len() as int) =~= Seq::<Seq<char>>::empty());
        assert(list_err(sc, toks_s) is None);
    }
    Ok(Value::List(vals))
}

/// Finds the request declared for `key` among `fields`.
fn lookup_field(fields: &Vec<Field>, key: &String) -> (r: Option<Request>)
    ensures
        r == field_lookup(fields@, key@),
{
    let mut i: usize = 0;
    proof {
        assert(fields@.skip(0) =~= fields@);
    }
    while i < fields.len()
        invariant
            i <= fields.len(),
            field_lookup(fields@.skip(i as int), key@) == field_lookup(fields@, key@),
        decreases fields.len() - i,
    {
        let ghost rest = fields@.skip(i as int);
        proof {
            assert(rest[0] == fields@[i as int]);
            assert(rest.drop_first() =~= fields@.skip(i as int + 1));
        }
        if str_eq(fields[i].name.as_str(), key.as_str()) {
            return Some(fields[i].shape);
        }
        i = i + 1;
    }
    proof {
        assert(fields@.skip(fields@.len() as int) =~= Seq::<Field>::empty());
    }
    None
}

impl Deserializer {
    /// Decodes the current definition's value as `req`, consuming it.
    /// The refused request kinds fail without consuming anything.
    pub fn decode_request(&mut self, req: Request) -> (r: Result<Value, Error>)
        requires
            old(self).wf(),
        ensures
            final(self).wf(),
            final(self).defs_v() == old(self).defs_v(),
            match req {
                Request::Enum => r == Err::<Value, Error>(Error::ExpectedEnum) && *final(self)
                    == *old(self),
                Request::Float | Request::Bytes | Request::Any => r == Err::<Value, Error>(
                    Error::Unimplemented,
                ) && *final(self) == *old(self),
                _ => {
                    &&& old(self).at_end() ==> r == Err::<Value, Error>(Error::Eof)
                        && *final(self) == *old(self)
                    &&& !old(self).at_end() ==> final(self).pos() == old(self).pos() + 1
                        && match old(self).cur() {
                        DefineView::Valid { value, .. } => request_decodes(req, value, r),
                        DefineView::Invalid { err, line } => r == Err::<Value, Error>(
                            Error::FailedParse(err, line as usize),
                        ),
                    }
                },
            },
    {
        match req {
            Request::Enum => Err(Error::ExpectedEnum),
            Request::Float | Request::Bytes | Request::Any => Err(Error::Unimplemented),
            Request::Scalar(sc) | Request::Optional(sc) => match self.get_value() {
                Ok(v) => scalar_of_text(sc, v.as_str()),
                Err(e) => Err(e),
            },
            Request::List(sc) => match self.get_value() {
                Ok(v) => list_of_text(sc, v.as_str()),
                Err(e) => Err(e),
            },
        }
    }

    /// Decodes all remaining definitions as a record with `fields`.
    fn decode_entries(&mut self, fields: &Vec<Field>) -> (r: Result<Value, Error>)
        requires
            old(self).wf(),
        ensures
            final(self).wf(),
            final(self).defs_v() == old(self).defs_v(),
            entries_decode(old(self).defs_v(), old(self).pos(), fields@, r),
    {
        let ghost defs = self.defs_v();
        let ghost pos0 = self.pos();
        let mut es: Vec<(String, Value)> = Vec::new();
        loop
            invariant
                self.wf(),
                defs == old(self).defs_v(),
                pos0 == old(self).pos(),
                self.defs_v() == defs,
                pos0 <= self.pos() <= defs.len(),
                es@.len() == self.pos() - pos0,
                forall|i: int| 0 <= i < es@.len() ==> entry_decodes(defs[pos0 + i], fields@, es@[i]),
                entries_err(defs, self.pos(), fields@) == entries_err(defs, pos0, fields@),
            decreases defs.len() - self.pos(),
        {
            match self.check_key() {
                Ok(false) => {
                    proof {
                        assert(entries_err(defs, self.pos(), fields@) is None);
                    }
                    return Ok(Value::Record(es));
                },
                Ok(true) => {},
                Err(e) => {
                    proof {
                        assert(entries_err(defs, self.pos(), fields@) == Some(e));
                    }
                    return Err(e);
                },
            }
            let key = match self.peek_key() {
                Ok(k) => k,
                Err(e) => {
                    return Err(e);
                },
            };
            let req = match lookup_field(fields, &key) {
                Some(req) => req,
                None => {
                    proof {
                        assert(entries_err(defs, self.pos(), fields@) == Some(
                            Error::Unimplemented,
                        ));
                    }
                    return Err(Error::Unimplemented);
                },
            };
            let ghost pos_before = self.pos();
            let val = match self.decode_request(req) {
                Ok(v) => v,
                Err(e) => {
                    proof {
                        lemma_request_err(req, defs[pos_before]->Valid_value, Err(e));
                        assert(entries_err(defs, pos_before, fields@) == Some(e));
                    }
                    return Err(e);
                },
            };
            proof {
                lemma_request_err(req, defs[pos_before]->Valid_value, Ok(val));
                assert(entries_err(defs, pos_before, fields@) == entries_err(
                    defs,
                    pos_before + 1,
                    fields@,
                ));
            }
            es.push((key, val));
        }
    }

    /// Decodes all remaining definitions as a mapping whose values are
    /// decoded as `req`.
    fn decode_mapping(&mut self, req: Request) -> (r: Result<Value, Error>)
        requires
            old(self).wf(),
        ensures
            final(self).wf(),
            final(self).defs_v() == old(self).defs_v(),
            mapping_decode(old(self).defs_v(), old(self).pos(), req, r),
    {
        let ghost defs = self.defs_v();
        let ghost pos0 = self.pos();
        let mut es: Vec<(String, Value)> = Vec::new();
        loop
            invariant
                self.wf(),
                defs == old(self).defs_v(),
                pos0 == old(self).pos(),
                self.defs_v() == defs,
                pos0 <= self.pos() <= defs.len(),
                es@.len() == self.pos() - pos0,
                forall|i: int|
                    0 <= i < es@.len() ==> mapping_entry_decodes(defs[pos0 + i], req, es@[i]),
                mapping_err(defs, self.pos(), req) == mapping_err(defs, pos0, req),
            decreases defs.len() - self.pos(),
        {
            match self.check_key() {
                Ok(false) => {
                    proof {
                        assert(mapping_err(defs, self.pos(), req) is None);
                    }
                    return Ok(Value::Record(es));
                },
                Ok(true) => {},
                Err(e) => {
                    proof {
                        assert(mapping_err(defs, self.pos(), req) == Some(e));
                    }
                    return Err(e);
                },
            }
            let key = match self.peek_key() {
                Ok(k) => k,
                Err(e) => {
                    return Err(e);
                },
            };
            let ghost pos_before = self.pos();
            let val = match self.decode_request(req) {
                Ok(v) => v,
                Err(e) => {
                    proof {
                        lemma_request_err(req, defs[pos_before]->Valid_value, Err(e));
                        assert(mapping_err(defs, pos_before, req) == Some(e));
                    }
                    return Err(e);
                },
            };
            proof {
                lemma_request_err(req, defs[pos_before]->Valid_value, Ok(val));
                assert(mapping_err(defs, pos_before, req) == mapping_err(
                    defs,
                    pos_before + 1,
                    req,
                ));
            }
            es.push((key, val));
        }
    }

    /// Decodes the remaining definitions as the target shape `shape`.
    pub fn decode(&mut self, shape: &Shape) -> (r: Result<Value, Error>)
        requires
            old(self).wf(),
        ensures
            final(self).wf(),
            final(self).defs_v() == old(self).defs_v(),
            spec_decodes(old(self).defs_v(), old(self).pos(), *shape, r),
    {
        match shape {
            Shape::Single(req) => self.decode_request(*req),
            Shape::Unit => Ok(Value::Unit),
            Shape::Record(fields) => self.decode_entries(fields),
            Shape::Mapping(req) => self.decode_mapping(*req),
        }
    }
}

/// Decoding as a boolean round-trips the two literals exactly and rejects
/// every other text: `true` and `false` yield those booleans, and any
/// other value text fails with a boolean error.
pub proof fn lemma_bool_round_trip(t: Seq<char>)
    ensures
        t == "true"@ ==> spec_bool_of(t) == Ok::<bool, Error>(true),
        t == "false"@ ==> spec_bool_of(t) == Ok::<bool, Error>(false),
        t != "true"@ && t != "false"@ ==> spec_bool_of(t) == Err::<bool, Error>(
            Error::ExpectedBoolean,
        ),
{
    reveal_strlit("true");
    reveal_strlit("false");
    assert("true"@.len() == 4);
    assert("false"@.len() == 5);
}

/// A successful list decode yields exactly one element per
/// whitespace-separated token of the value text, in original
/// left-to-right order.
pub proof fn lemma_list_cardinality(sc: Scalar, toks: Seq<Seq<char>>, r: Result<Value, Error>)
    requires
        list_decodes(sc, toks, r),
        r is Ok,
    ensures
        r matches Ok(val) && val matches Value::List(vs) && vs@.len() == toks.len() && forall|
            i: int,
        | 0 <= i < toks.len() ==> scalar_decodes(sc, toks[i], Ok(vs@[i])),
{
}

/// A successful mapping decode yields exactly the source's keys, one per
/// definition, in original source order — never sorted or deduplicated.
pub proof fn lemma_mapping_key_order(defs: Seq<DefineView>, req: Request, r: Result<Value, Error>)
    requires
        mapping_decode(defs, 0, req, r),
        r is Ok,
    ensures
        r matches Ok(val) && val matches Value::Record(es) && es@.len() == defs.len() && forall|
            i: int,
        | 0 <= i < defs.len() ==> mapping_entry_decodes(defs[i], req, #[trigger] es@[i]),
{
}

/// A malformed definition is surfaced as a parse failure carrying its own
/// line number, wherever in the stream it stands: never an adjacent
/// line's number, and never silently skipped.
pub proof fn lemma_invalid_line_number(
    defs: Seq<DefineView>,
    pos: int,
    req: Request,
    r: Result<Value, Error>,
)
    requires
        mapping_decode(defs, pos, req, r),
        0 <= pos < defs.len(),
        defs[pos] is Invalid,
    ensures
        r == Err::<Value, Error>(
            Error::FailedParse(defs[pos]->Invalid_err, defs[pos]->Invalid_line as usize),
        ),
{
}

/// Decodes input text against a caller-supplied target shape: the single
/// entry point of the engine.  Returns the fully decoded value, or the
/// first structural or type error encountered, with the offending line
/// number where available.
pub fn from_str(s: &str, shape: &Shape) -> (r: Result<Value, Error>)
    requires
        s@.len() < usize::MAX,
    ensures
        spec_decodes(spec_defs(s@, 1), 0, *shape, r),
{
    let mut d = Deserializer::from_str(s);
    d.decode(shape)
}

} // verus!
