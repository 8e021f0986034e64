//! Typed optional fields: a closed set of value variants, each with a
//! one-character type code and a canonical text encoding, and the
//! `tag:code:value` field around them.

use vstd::prelude::*;

use crate::error::GfaError;
use crate::text::all_hex_digits;
use crate::text::all_nibbles;
use crate::text::canonical_int_text;
use crate::text::check_float;
use crate::text::lemma_float_list_round_trip;
use crate::text::lemma_hex_round_trip;
use crate::text::lemma_hex_unique;
use crate::text::lemma_int_list_round_trip;
use crate::text::lemma_int_text_unique;
use crate::text::lemma_int_text_val;
use crate::text::split_commas;
use crate::text::valid_i64_token;
use crate::text::check_text_ok;
use crate::text::colon_end;
use crate::text::float_list_val;
use crate::text::hex_text;
use crate::text::hex_vals;
use crate::text::in_i64;
use crate::text::int_list_text;
use crate::text::int_list_val;
use crate::text::int_text;
use crate::text::int_val;
use crate::text::join_commas;
use crate::text::join_commas_exec;
use crate::text::parse_float_list;
use crate::text::parse_hex;
use crate::text::parse_i64;
use crate::text::parse_i64_list;
use crate::text::push_char;
use crate::text::render_hex;
use crate::text::render_i64;
use crate::text::render_i64_list;
use crate::text::scan_colon;
use crate::text::text_ok;
use crate::text::valid_float_list_text;
use crate::text::valid_float_text;
use crate::text::valid_int_list_text;
use crate::text::valid_int_text;

verus! {

/// The mathematical content of an optional field value: what each exec
/// variant denotes, with text as character sequences.
pub enum FieldContent {
    PrintableChar(char),
    SignedInt(i64),
    Float(Seq<char>),
    PrintableString(Seq<char>),
    JSON(Seq<char>),
    ByteArray(Seq<u32>),
    IntArray(Seq<i64>),
    FloatArray(Seq<Seq<char>>),
}

/// A typed optional field value. Floats are carried as their validated
/// decimal text, never re-interpreted: rendering is verbatim, so the decoded
/// form of a field round-trips byte for byte.
#[derive(Debug, Clone, PartialEq, PartialOrd)]
pub enum OptionalFieldValue {
    /// Type code `A`: a single character.
    PrintableChar(char),
    /// Type code `i`: a 64-bit signed integer.
    SignedInt(i64),
    /// Type code `f`: a float, kept as its decimal text.
    Float(String),
    /// Type code `Z`: text without tabs or newlines.
    PrintableString(String),
    /// Type code `J`: raw JSON text, opaque to this model.
    JSON(String),
    /// Type code `H`: a sequence of nibble values, each below 16.
    ByteArray(Vec<u32>),
    /// Type code `B:I`: a sequence of 64-bit signed integers.
    IntArray(Vec<i64>),
    /// Type code `B:f`: a sequence of floats, each kept as decimal text.
    FloatArray(Vec<String>),
}

impl View for OptionalFieldValue {
    type V = FieldContent;

    open spec fn view(&self) -> FieldContent {
        match self {
            OptionalFieldValue::PrintableChar(c) => FieldContent::PrintableChar(*c),
            OptionalFieldValue::SignedInt(i) => FieldContent::SignedInt(*i),
            OptionalFieldValue::Float(s) => FieldContent::Float(s@),
            OptionalFieldValue::PrintableString(s) => FieldContent::PrintableString(s@),
            OptionalFieldValue::JSON(s) => FieldContent::JSON(s@),
            OptionalFieldValue::ByteArray(v) => FieldContent::ByteArray(v@),
            OptionalFieldValue::IntArray(v) => FieldContent::IntArray(v@),
            OptionalFieldValue::FloatArray(v) => FieldContent::FloatArray(v.deep_view()),
        }
    }
}

/// Well-formedness of field content: float text matches the float grammar,
/// plain text carries no field or line separators, and each nibble is below
/// 16. Every decoded value is well formed, and only well-formed values
/// render.
pub open spec fn content_wf(v: FieldContent) -> bool {
    match v {
        FieldContent::Float(s) => valid_float_text(s),
        FieldContent::PrintableString(s) => text_ok(s),
        FieldContent::JSON(s) => text_ok(s),
        FieldContent::ByteArray(b) => all_nibbles(b),
        FieldContent::FloatArray(a) => forall|i: int|
            0 <= i < a.len() ==> valid_float_text(#[trigger] a[i]),
        _ => true,
    }
}

/// The canonical text of field content, type code included: what stands
/// after `tag:` in a rendered field.
pub open spec fn content_text(v: FieldContent) -> Seq<char> {
    match v {
        FieldContent::PrintableChar(c) => seq!['A', ':', c],
        FieldContent::SignedInt(i) => seq!['i', ':'] + int_text(i as int),
        FieldContent::Float(s) => seq!['f', ':'] + s,
        FieldContent::PrintableString(s) => seq!['Z', ':'] + s,
        FieldContent::JSON(s) => seq!['J', ':'] + s,
        FieldContent::ByteArray(b) => seq!['H', ':'] + hex_text(b),
        FieldContent::IntArray(a) => seq!['B', ':', 'I'] + int_list_text(a),
        FieldContent::FloatArray(a) => seq!['B', ':', 'f'] + join_commas(a),
    }
}

/// The recognized type codes.
pub open spec fn known_code(c: char) -> bool {
    c == 'A' || c == 'i' || c == 'f' || c == 'Z' || c == 'J' || c == 'H' || c == 'B'
}

/// What decoding content text yields: the grammar of each type code, and
/// which error each failure carries.
pub open spec fn decode_content(s: Seq<char>) -> Result<FieldContent, GfaError> {
    if s.len() == 0 {
        Err(GfaError::MalformedValue)
    } else if !known_code(s[0]) {
        Err(GfaError::UnknownTypeCode)
    } else if s.len() < 2 || s[1] != ':' {
        Err(GfaError::MalformedValue)
    } else {
        let v = s.skip(2);
        if s[0] == 'A' {
            if v.len() == 1 {
                Ok(FieldContent::PrintableChar(v[0]))
            } else {
                Err(GfaError::MalformedValue)
            }
        } else if s[0] == 'i' {
            if valid_int_text(v) && in_i64(int_val(v)) {
                Ok(FieldContent::SignedInt(int_val(v) as i64))
            } else {
                Err(GfaError::MalformedValue)
            }
        } else if s[0] == 'f' {
            if valid_float_text(v) {
                Ok(FieldContent::Float(v))
            } else {
                Err(GfaError::MalformedValue)
            }
        } else if s[0] == 'Z' {
            if text_ok(v) {
                Ok(FieldContent::PrintableString(v))
            } else {
                Err(GfaError::MalformedValue)
            }
        } else if s[0] == 'J' {
            if text_ok(v) {
                Ok(FieldContent::JSON(v))
            } else {
                Err(GfaError::MalformedValue)
            }
        } else if s[0] == 'H' {
            if all_hex_digits(v) {
                Ok(FieldContent::ByteArray(hex_vals(v)))
            } else {
                Err(GfaError::MalformedValue)
            }
        } else {
            if v.len() == 0 {
                Err(GfaError::MalformedValue)
            } else if v[0] == 'I' {
                if valid_int_list_text(v.skip(1)) {
                    Ok(FieldContent::IntArray(int_list_val(v.skip(1))))
                } else {
                    Err(GfaError::MalformedValue)
                }
            } else if v[0] == 'f' {
                if valid_float_list_text(v.skip(1)) {
                    Ok(FieldContent::FloatArray(float_list_val(v.skip(1))))
                } else {
                    Err(GfaError::MalformedValue)
                }
            } else {
                Err(GfaError::MalformedValue)
            }
        }
    }
}

impl OptionalFieldValue {
    /// Well-formedness of the value; see `content_wf`.
    pub open spec fn wf(self) -> bool {
        content_wf(self@)
    }

    /// Renders the value with its type code: the text that stands after
    /// `tag:` in the field.
    pub fn render(&self) -> (s: String)
        requires
            self.wf(),
        ensures
            s@ == content_text(self@),
    {
        match self {
            OptionalFieldValue::PrintableChar(c) => {
                let mut s = String::new();
                push_char(&mut s, 'A');
                push_char(&mut s, ':');
                push_char(&mut s, *c);
                proof {
                    assert(s@ =~= content_text(self@));
                }
                s
            },
            OptionalFieldValue::SignedInt(i) => {
                let mut s = String::new();
                push_char(&mut s, 'i');
                push_char(&mut s, ':');
                let t = render_i64(*i);
                s.append(t.as_str());
                proof {
                    assert(s@ =~= content_text(self@));
                }
                s
            },
            OptionalFieldValue::Float(f) => {
                let mut s = String::new();
                push_char(&mut s, 'f');
                push_char(&mut s, ':');
                s.append(f.as_str());
                proof {
                    assert(s@ =~= content_text(self@));
                }
                s
            },
            OptionalFieldValue::PrintableString(z) => {
                let mut s = String::new();
                push_char(&mut s, 'Z');
                push_char(&mut s, ':');
                s.append(z.as_str());
                proof {
                    assert(s@ =~= content_text(self@));
                }
                s
            },
            OptionalFieldValue::JSON(j) => {
                let mut s = String::new();
                push_char(&mut s, 'J');
                push_char(&mut s, ':');
                s.append(j.as_str());
                proof {
                    assert(s@ =~= content_text(self@));
                }
                s
            },
            OptionalFieldValue::ByteArray(b) => {
                let mut s = String::new();
                push_char(&mut s, 'H');
                push_char(&mut s, ':');
                proof {
                    assert(self@ == FieldContent::ByteArray(b@));
                }
                let t = render_hex(b);
                s.append(t.as_str());
                proof {
                    assert(s@ =~= content_text(self@));
                }
                s
            },
            OptionalFieldValue::IntArray(a) => {
                let mut s = String::new();
                push_char(&mut s, 'B');
                push_char(&mut s, ':');
                push_char(&mut s, 'I');
                let t = render_i64_list(a);
                s.append(t.as_str());
                proof {
                    assert(s@ =~= content_text(self@));
                }
                s
            },
            OptionalFieldValue::FloatArray(a) => {
                let mut s = String::new();
                push_char(&mut s, 'B');
                push_char(&mut s, ':');
                push_char(&mut s, 'f');
                let t = join_commas_exec(a);
                s.append(t.as_str());
                proof {
                    assert(s@ =~= content_text(self@));
                }
                s
            },
        }
    }

    /// Decodes content text of the form `<code>:<value>` (or
    /// `B:<subtype><values>`), dispatching on the type code. The result is
    /// exactly what `decode_content` yields, and every decoded value is well
    /// formed.
    pub fn parse(s: &str) -> (r: Result<OptionalFieldValue, GfaError>)
        ensures
            match (r, decode_content(s@)) {
                (Ok(v), Ok(w)) => v@ == w && v.wf(),
                (Err(e1), Err(e2)) => e1 == e2,
                _ => false,
            },
    {
        let n = s.unicode_len();
        if n == 0 {
            return Err(GfaError::MalformedValue);
        }
        let code = s.get_char(0);
        if !(code == 'A' || code == 'i' || code == 'f' || code == 'Z' || code == 'J'
            || code == 'H' || code == 'B') {
            return Err(GfaError::UnknownTypeCode);
        }
        if n < 2 {
            return Err(GfaError::MalformedValue);
        }
        if s.get_char(1) != ':' {
            return Err(GfaError::MalformedValue);
        }
        let v = s.substring_char(2, n);
        proof {
            assert(v@ =~= s@.skip(2));
        }
        if code == 'A' {
            if v.unicode_len() == 1 {
                let c = v.get_char(0);
                Ok(OptionalFieldValue::PrintableChar(c))
            } else {
                Err(GfaError::MalformedValue)
            }
        } else if code == 'i' {
            match parse_i64(v) {
                Ok(x) => Ok(OptionalFieldValue::SignedInt(x)),
                Err(e) => Err(e),
            }
        } else if code == 'f' {
            if check_float(v) {
                Ok(OptionalFieldValue::Float(v.to_owned()))
            } else {
                Err(GfaError::MalformedValue)
            }
        } else if code == 'Z' {
            if check_text_ok(v, 0) {
                proof {
                    assert(v@.skip(0) =~= v@);
                }
                Ok(OptionalFieldValue::PrintableString(v.to_owned()))
            } else {
                proof {
                    assert(v@.skip(0) =~= v@);
                }
                Err(GfaError::MalformedValue)
            }
        } else if code == 'J' {
            if check_text_ok(v, 0) {
                proof {
                    assert(v@.skip(0) =~= v@);
                }
                Ok(OptionalFieldValue::JSON(v.to_owned()))
            } else {
                proof {
                    assert(v@.skip(0) =~= v@);
                }
                Err(GfaError::MalformedValue)
            }
        } else if code == 'H' {
            match parse_hex(v) {
                Ok(b) => Ok(OptionalFieldValue::ByteArray(b)),
                Err(e) => Err(e),
            }
        } else {
            let m = v.unicode_len();
            if m == 0 {
                return Err(GfaError::MalformedValue);
            }
            let sub = v.get_char(0);
            let rest = v.substring_char(1, m);
            proof {
                assert(rest@ =~= v@.skip(1));
            }
            if sub == 'I' {
                match parse_i64_list(rest) {
                    Ok(a) => Ok(OptionalFieldValue::IntArray(a)),
                    Err(e) => Err(e),
                }
            } else if sub == 'f' {
                match parse_float_list(rest) {
                    Ok(a) => Ok(OptionalFieldValue::FloatArray(a)),
                    Err(e) => Err(e),
                }
            } else {
                Err(GfaError::MalformedValue)
            }
        }
    }
}

/// Decoding rendered content restores the value exactly, for every
/// well-formed value of every variant: one half of the round-trip
/// guarantee.
pub proof fn lemma_content_round_trip(v: FieldContent)
    requires
        content_wf(v),
    ensures
        decode_content(content_text(v)) == Ok::<FieldContent, GfaError>(v),
{
    let t = content_text(v);
    match v {
        FieldContent::PrintableChar(c) => {
            assert(t[0] == 'A' && t[1] == ':');
            assert(t.skip(2) =~= seq![c]);
        },
        FieldContent::SignedInt(i) => {
            assert(t[0] == 'i' && t[1] == ':');
            assert(t.skip(2) =~= int_text(i as int));
            lemma_int_text_val(i as int);
        },
        FieldContent::Float(f) => {
            assert(t[0] == 'f' && t[1] == ':');
            assert(t.skip(2) =~= f);
        },
        FieldContent::PrintableString(z) => {
            assert(t[0] == 'Z' && t[1] == ':');
            assert(t.skip(2) =~= z);
        },
        FieldContent::JSON(j) => {
            assert(t[0] == 'J' && t[1] == ':');
            assert(t.skip(2) =~= j);
        },
        FieldContent::ByteArray(b) => {
            assert(t[0] == 'H' && t[1] == ':');
            assert(t.skip(2) =~= hex_text(b));
            lemma_hex_round_trip(b);
        },
        FieldContent::IntArray(a) => {
            assert(t[0] == 'B' && t[1] == ':');
            let w = t.skip(2);
            assert(w =~= seq!['I'] + int_list_text(a));
            assert(w[0] == 'I');
            assert(w.skip(1) =~= int_list_text(a));
            lemma_int_list_round_trip(a);
        },
        FieldContent::FloatArray(a) => {
            assert(t[0] == 'B' && t[1] == ':');
            let w = t.skip(2);
            assert(w =~= seq!['f'] + join_commas(a));
            assert(w[0] == 'f');
            assert(w.skip(1) =~= join_commas(a));
            lemma_float_list_round_trip(a);
        },
    }
}

/// Content text whose numeric tokens are canonical: no redundant leading
/// zeros and no minus-zero. All text this crate renders is canonical; text
/// such as `i:007` decodes but re-renders shorter.
pub open spec fn canonical_content_text(s: Seq<char>) -> bool {
    if s.len() >= 2 && s[0] == 'i' {
        canonical_int_text(s.skip(2))
    } else if s.len() >= 3 && s[0] == 'B' && s[2] == 'I' {
        s.len() == 3 || forall|i: int| 0 <= i < split_commas(s.skip(3)).len()
            ==> canonical_int_text(#[trigger] split_commas(s.skip(3))[i])
    } else {
        true
    }
}

/// Rendering the decoded value of valid, canonical content text restores
/// the text byte for byte: the other half of the round-trip guarantee. The
/// decoded value is also well formed, so it may be rendered at all.
#[verifier::rlimit(60)]
pub proof fn lemma_content_text_unique(s: Seq<char>)
    requires
        decode_content(s) is Ok,
        canonical_content_text(s),
    ensures
        content_wf(decode_content(s)->Ok_0),
        content_text(decode_content(s)->Ok_0) == s,
{
    let v = s.skip(2);
    if s[0] == 'A' {
        assert(seq!['A', ':', v[0]] =~= s);
    } else if s[0] == 'i' {
        lemma_int_text_unique(v);
        assert(seq!['i', ':'] + int_text(int_val(v)) =~= s);
    } else if s[0] == 'f' {
        assert(seq!['f', ':'] + v =~= s);
    } else if s[0] == 'Z' {
        assert(seq!['Z', ':'] + v =~= s);
    } else if s[0] == 'J' {
        assert(seq!['J', ':'] + v =~= s);
    } else if s[0] == 'H' {
        lemma_hex_unique(v);
        assert forall|i: int| 0 <= i < hex_vals(v).len()
            implies #[trigger] hex_vals(v)[i] < 16 by {
            crate::text::lemma_hex_char_val(v[i]);
        }
        assert(all_nibbles(hex_vals(v)));
        assert(seq!['H', ':'] + hex_text(hex_vals(v)) =~= s);
    } else {
        let w = v.skip(1);
        assert(w =~= s.skip(3));
        if v[0] == 'I' {
            if w.len() == 0 {
                let e = Seq::<i64>::empty();
                assert(int_list_val(w) == e);
                assert(e.map_values(|x: i64| int_text(x as int)).len() == 0);
                assert(int_list_text(e).len() == 0);
                assert(seq!['B', ':', 'I'] + int_list_text(e) =~= s);
            } else {
                let tk = split_commas(w);
                let a = int_list_val(w);
                assert(a == tk.map_values(|t: Seq<char>| int_val(t) as i64));
                crate::text::lemma_join_split(w);
                assert(s.len() > 3);
                let am = a.map_values(|x: i64| int_text(x as int));
                assert forall|i: int| 0 <= i < a.len() implies #[trigger] am[i] == tk[i] by {
                    assert(canonical_int_text(tk[i]));
                    lemma_int_text_unique(tk[i]);
                    assert(valid_i64_token(tk[i]));
                    assert(a[i] == int_val(tk[i]) as i64);
                    assert(a[i] as int == int_val(tk[i]));
                }
                assert(am =~= tk);
                assert(a.map_values(|x: i64| int_text(x as int)) =~= tk);
                assert(int_list_text(a) == join_commas(tk));
                assert(seq!['B', ':', 'I'] + int_list_text(a) =~= s);
            }
        } else {
            if w.len() == 0 {
                let e = Seq::<Seq<char>>::empty();
                assert(float_list_val(w) == e);
                assert(join_commas(e).len() == 0);
                assert(seq!['B', ':', 'f'] + join_commas(e) =~= s);
            } else {
                crate::text::lemma_join_split(w);
                assert(float_list_val(w) == split_commas(w));
                assert(seq!['B', ':', 'f'] + join_commas(split_commas(w)) =~= s);
            }
        }
    }
}

/// The full text of a field: `tag`, a colon, then the typed content.
pub open spec fn field_text(tag: Seq<char>, v: FieldContent) -> Seq<char> {
    tag + seq![':'] + content_text(v)
}

/// What decoding a full field yields: the text up to the first colon is the
/// tag, the rest is typed content.
pub open spec fn decode_field(s: Seq<char>) -> Result<(Seq<char>, FieldContent), GfaError> {
    let k = colon_end(s, 0);
    if k == s.len() {
        Err(GfaError::MalformedValue)
    } else {
        match decode_content(s.skip(k + 1)) {
            Ok(v) => Ok((s.subrange(0, k), v)),
            Err(e) => Err(e),
        }
    }
}

/// Round trip at field level: decoding a rendered field restores tag and
/// value, for every well-formed value and every colon-free tag.
pub proof fn lemma_field_round_trip(tag: Seq<char>, v: FieldContent)
    requires
        content_wf(v),
        forall|j: int| 0 <= j < tag.len() ==> #[trigger] tag[j] != ':',
    ensures
        decode_field(field_text(tag, v)) == Ok::<(Seq<char>, FieldContent), GfaError>((tag, v)),
{
    let s = field_text(tag, v);
    let k = tag.len() as int;
    assert(s[k] == ':');
    assert(forall|j: int| 0 <= j < k ==> s[j] == #[trigger] tag[j]);
    crate::text::lemma_colon_end_is(s, 0, k);
    assert(s.subrange(0, k) =~= tag);
    assert(s.skip(k + 1) =~= content_text(v));
    lemma_content_round_trip(v);
    assert(content_text(v).len() >= 2);
    assert(k < s.len());
}

/// Rendering the decoded tag and value of valid, canonical field text
/// restores the text byte for byte.
pub proof fn lemma_field_text_unique(s: Seq<char>)
    requires
        decode_field(s) is Ok,
        canonical_content_text(s.skip(colon_end(s, 0) + 1)),
    ensures
        ({
            let p = decode_field(s)->Ok_0;
            content_wf(p.1) && field_text(p.0, p.1) == s
        }),
{
    let k = colon_end(s, 0);
    crate::text::lemma_colon_end(s, 0);
    lemma_content_text_unique(s.skip(k + 1));
    let p = decode_field(s)->Ok_0;
    assert(p.0 == s.subrange(0, k));
    assert(content_text(p.1) == s.skip(k + 1));
    assert(field_text(p.0, p.1) =~= s);
}

/// A tagged, typed optional field. Tag names are two characters by format
/// convention, but that is not enforced structurally here.
#[derive(Debug, Clone, PartialEq, PartialOrd)]
pub struct OptionalField {
    pub tag: String,
    pub content: OptionalFieldValue,
}

impl View for OptionalField {
    type V = (Seq<char>, FieldContent);

    open spec fn view(&self) -> (Seq<char>, FieldContent) {
        (self.tag@, self.content@)
    }
}

impl OptionalField {
    /// Well-formedness of the field; the tag's shape is deliberately not
    /// constrained.
    pub open spec fn wf(self) -> bool {
        self.content.wf()
    }

    pub fn new(tag: &str, content: OptionalFieldValue) -> (r: OptionalField)
        ensures
            r.tag@ == tag@,
            r.content == content,
    {
        OptionalField { tag: tag.to_owned(), content }
    }

    /// Renders the full `tag:code:value` text of the field.
    pub fn render(&self) -> (s: String)
        requires
            self.wf(),
        ensures
            s@ == field_text(self.tag@, self.content@),
    {
        let mut s = self.tag.clone();
        push_char(&mut s, ':');
        let t = self.content.render();
        s.append(t.as_str());
        proof {
            assert(s@ =~= field_text(self.tag@, self.content@));
        }
        s
    }

    /// Decodes full field text: the part before the first colon is the tag,
    /// the rest is dispatched on its type code. The result is exactly what
    /// `decode_field` yields.
    pub fn parse(s: &str) -> (r: Result<OptionalField, GfaError>)
        ensures
            match (r, decode_field(s@)) {
                (Ok(f), Ok(p)) => f.tag@ == p.0 && f.content@ == p.1 && f.wf(),
                (Err(e1), Err(e2)) => e1 == e2,
                _ => false,
            },
    {
        let n = s.unicode_len();
        let k = scan_colon(s);
        if k == n {
            return Err(GfaError::MalformedValue);
        }
        proof {
            crate::text::lemma_colon_end(s@, 0);
        }
        let tag = s.substring_char(0, k).to_owned();
        let rest = s.substring_char(k + 1, n);
        proof {
            assert(rest@ =~= s@.skip(k as int + 1));
        }
        match OptionalFieldValue::parse(rest) {
            Ok(v) => Ok(OptionalField { tag, content: v }),
            Err(e) => Err(e),
        }
    }
}

} // verus!
