//! Generic JSON document model: a tagged value tree, a serializer with
//! stable two-space indentation, and a parser.  Numbers are kept as their
//! original lexemes, so a document that is parsed and re-serialized
//! reproduces every unrecognized value verbatim.

use vstd::prelude::*;

use crate::text::{chars_eq, clone_chars, push_chars};

verus! {

broadcast use vstd::std_specs::vec::axiom_vec_index_decreases, vstd::std_specs::vec::axiom_vec_decreases_to_view, vstd::seq::axiom_seq_index_decreases;

/// A JSON value.  Object members keep their textual order; a number keeps
/// its source lexeme instead of a converted binary form.
#[derive(Debug, PartialEq, Eq)]
pub enum Json {
    Null,
    Bool(bool),
    Num(Vec<char>),
    Str(Vec<char>),
    Arr(Vec<Json>),
    Obj(Vec<(Vec<char>, Json)>),
}

/// The mathematical model of a [`Json`] value.
#[verifier::ext_equal]
pub enum JsonV {
    Null,
    Bool(bool),
    Num(Seq<char>),
    Str(Seq<char>),
    Arr(Seq<JsonV>),
    Obj(Seq<(Seq<char>, JsonV)>),
}

/// The model of a [`Json`] value.
pub open spec fn jv(j: Json) -> JsonV
    decreases j, 0int,
{
    match j {
        Json::Null => JsonV::Null,
        Json::Bool(b) => JsonV::Bool(b),
        Json::Num(s) => JsonV::Num(s@),
        Json::Str(s) => JsonV::Str(s@),
        Json::Arr(a) => JsonV::Arr(jv_list(a, 0)),
        Json::Obj(o) => JsonV::Obj(jv_pairs(o, 0)),
    }
}

/// The models of the elements of `a` from position `i` on.
pub open spec fn jv_list(a: Vec<Json>, i: int) -> Seq<JsonV>
    decreases a, a@.len() - i,
{
    if i < 0 || i >= a@.len() {
        Seq::empty()
    } else {
        seq![jv(a@[i])] + jv_list(a, i + 1)
    }
}

/// The models of the members of `o` from position `i` on.
pub open spec fn jv_pairs(o: Vec<(Vec<char>, Json)>, i: int) -> Seq<(Seq<char>, JsonV)>
    decreases o, o@.len() - i,
{
    if i < 0 || i >= o@.len() {
        Seq::empty()
    } else {
        seq![(o@[i].0@, jv(o@[i].1))] + jv_pairs(o, i + 1)
    }
}

/// The models of the elements of an array.
pub open spec fn jvs(a: Seq<Json>) -> Seq<JsonV> {
    Seq::new(a.len(), |i: int| jv(a[i]))
}

/// The models of the members of an object.
pub open spec fn jvm(o: Seq<(Vec<char>, Json)>) -> Seq<(Seq<char>, JsonV)> {
    Seq::new(o.len(), |i: int| (o[i].0@, jv(o[i].1)))
}

proof fn lemma_jv_list(a: Vec<Json>, i: int)
    requires
        0 <= i <= a@.len(),
    ensures
        jv_list(a, i) =~= jvs(a@).subrange(i, a@.len() as int),
    decreases a@.len() - i,
{
    if i < a@.len() {
        lemma_jv_list(a, i + 1);
    }
}

proof fn lemma_jv_pairs(o: Vec<(Vec<char>, Json)>, i: int)
    requires
        0 <= i <= o@.len(),
    ensures
        jv_pairs(o, i) =~= jvm(o@).subrange(i, o@.len() as int),
    decreases o@.len() - i,
{
    if i < o@.len() {
        lemma_jv_pairs(o, i + 1);
    }
}

/// How the model of an array or object relates to the models of its
/// parts.
pub broadcast proof fn lemma_jv_unfold(j: Json)
    ensures
        (#[trigger] jv(j)) matches JsonV::Arr(m) ==> j matches Json::Arr(a) && m == jvs(a@),
        jv(j) matches JsonV::Obj(m) ==> j matches Json::Obj(o) && m == jvm(o@),
        jv(j) matches JsonV::Num(s) ==> j matches Json::Num(n) && s == n@,
        jv(j) matches JsonV::Str(s) ==> j matches Json::Str(n) && s == n@,
        jv(j) matches JsonV::Bool(b) ==> j == Json::Bool(b),
        jv(j) matches JsonV::Null ==> j == Json::Null,
{
    match j {
        Json::Arr(a) => {
            lemma_jv_list(a, 0);
            assert(jv_list(a, 0) =~= jvs(a@));
        },
        Json::Obj(o) => {
            lemma_jv_pairs(o, 0);
            assert(jv_pairs(o, 0) =~= jvm(o@));
        },
        _ => {},
    }
}

/// JSON insignificant whitespace (space, tab, line feed, carriage return).
pub open spec fn is_jws(c: char) -> bool {
    c == ' ' || c == '\t' || c == '\n' || c == '\r'
}

/// The first position at or after `i` that does not hold JSON whitespace.
pub open spec fn jws_end(s: Seq<char>, i: int) -> int
    decreases s.len() - i,
{
    if 0 <= i < s.len() && is_jws(s[i]) {
        jws_end(s, i + 1)
    } else {
        i
    }
}

pub proof fn lemma_jws_end(s: Seq<char>, i: int)
    requires
        0 <= i <= s.len(),
    ensures
        i <= jws_end(s, i) <= s.len(),
        forall|k: int| i <= k < jws_end(s, i) ==> is_jws(s[k]),
        jws_end(s, i) < s.len() ==> !is_jws(s[jws_end(s, i)]),
    decreases s.len() - i,
{
    if i < s.len() && is_jws(s[i]) {
        lemma_jws_end(s, i + 1);
    }
}

/// Lower-case hexadecimal digit for a value below 16.
pub open spec fn hex_digit(v: int) -> char {
    if v == 0 { '0' } else if v == 1 { '1' } else if v == 2 { '2' } else if v == 3 { '3' }
    else if v == 4 { '4' } else if v == 5 { '5' } else if v == 6 { '6' } else if v == 7 { '7' }
    else if v == 8 { '8' } else if v == 9 { '9' } else if v == 10 { 'a' } else if v == 11 { 'b' }
    else if v == 12 { 'c' } else if v == 13 { 'd' } else if v == 14 { 'e' } else { 'f' }
}

/// How one character is written inside a JSON string literal.
pub open spec fn esc_char(c: char) -> Seq<char> {
    if c == '"' { seq!['\\', '"'] }
    else if c == '\\' { seq!['\\', '\\'] }
    else if c == '\n' { seq!['\\', 'n'] }
    else if c == '\t' { seq!['\\', 't'] }
    else if c == '\r' { seq!['\\', 'r'] }
    else if (c as u32) < 0x20 {
        seq!['\\', 'u', '0', '0', hex_digit(c as u32 as int / 16), hex_digit(c as u32 as int % 16)]
    } else { seq![c] }
}

/// The escaped form of the first `i` characters of `s`.
pub open spec fn escaped_upto(s: Seq<char>, i: int) -> Seq<char>
    decreases i,
{
    if i <= 0 {
        Seq::empty()
    } else {
        escaped_upto(s, i - 1) + esc_char(s[i - 1])
    }
}

/// The escaped form of a whole string body.
pub open spec fn escaped(s: Seq<char>) -> Seq<char> {
    escaped_upto(s, s.len() as int)
}

fn hex_digit_exec(v: u32) -> (r: char)
    requires
        v < 16,
    ensures
        r == hex_digit(v as int),
{
    if v == 0 { '0' } else if v == 1 { '1' } else if v == 2 { '2' } else if v == 3 { '3' }
    else if v == 4 { '4' } else if v == 5 { '5' } else if v == 6 { '6' } else if v == 7 { '7' }
    else if v == 8 { '8' } else if v == 9 { '9' } else if v == 10 { 'a' } else if v == 11 { 'b' }
    else if v == 12 { 'c' } else if v == 13 { 'd' } else if v == 14 { 'e' } else { 'f' }
}

/// Append the escaped form of `s` to `out`.
fn push_escaped(s: &Vec<char>, out: &mut Vec<char>)
    ensures
        final(out)@ == old(out)@ + escaped(s@),
{
    let mut i: usize = 0;
    while i < s.len()
        invariant
            i <= s@.len(),
            out@ == old(out)@ + escaped_upto(s@, i as int),
        decreases s@.len() - i,
    {
        let c = s[i];
        if c == '"' {
            out.push('\\');
            out.push('"');
        } else if c == '\\' {
            out.push('\\');
            out.push('\\');
        } else if c == '\n' {
            out.push('\\');
            out.push('n');
        } else if c == '\t' {
            out.push('\\');
            out.push('t');
        } else if c == '\r' {
            out.push('\\');
            out.push('r');
        } else if (c as u32) < 0x20 {
            out.push('\\');
            out.push('u');
            out.push('0');
            out.push('0');
            out.push(hex_digit_exec((c as u32) / 16));
            out.push(hex_digit_exec((c as u32) % 16));
        } else {
            out.push(c);
        }
        assert(out@ =~= old(out)@ + escaped_upto(s@, i + 1));
        i += 1;
    }
}

/// The serialized form of a value at indentation prefix `ind`.
pub open spec fn sp_ser(v: JsonV, ind: Seq<char>) -> Seq<char>
    decreases v, 0int,
{
    match v {
        JsonV::Null => seq!['n', 'u', 'l', 'l'],
        JsonV::Bool(b) => if b { seq!['t', 'r', 'u', 'e'] } else { seq!['f', 'a', 'l', 's', 'e'] },
        JsonV::Num(s) => s,
        JsonV::Str(s) => seq!['"'] + escaped(s) + seq!['"'],
        JsonV::Arr(a) => {
            if a.len() == 0 {
                seq!['[', ']']
            } else {
                seq!['[', '\n'] + sp_ser_elems(a, 0, ind + seq![' ', ' ']) + seq!['\n'] + ind
                    + seq![']']
            }
        },
        JsonV::Obj(o) => {
            if o.len() == 0 {
                seq!['{', '}']
            } else {
                seq!['{', '\n'] + sp_ser_members(o, 0, ind + seq![' ', ' ']) + seq!['\n'] + ind
                    + seq!['}']
            }
        },
    }
}

/// The serialized elements of an array from position `i` on, each on its
/// own line at indentation `ind2`, separated by commas.
pub open spec fn sp_ser_elems(a: Seq<JsonV>, i: int, ind2: Seq<char>) -> Seq<char>
    decreases a, a.len() - i,
{
    if i < 0 || i >= a.len() {
        Seq::empty()
    } else {
        let piece = ind2 + sp_ser(a[i], ind2);
        if i + 1 < a.len() {
            piece + seq![',', '\n'] + sp_ser_elems(a, i + 1, ind2)
        } else {
            piece
        }
    }
}

/// The serialized members of an object from position `i` on.
pub open spec fn sp_ser_members(o: Seq<(Seq<char>, JsonV)>, i: int, ind2: Seq<char>) -> Seq<char>
    decreases o, o.len() - i,
{
    if i < 0 || i >= o.len() {
        Seq::empty()
    } else {
        let piece = ind2 + seq!['"'] + escaped(o[i].0) + seq!['"', ':', ' '] + sp_ser(
            o[i].1,
            ind2,
        );
        if i + 1 < o.len() {
            piece + seq![',', '\n'] + sp_ser_members(o, i + 1, ind2)
        } else {
            piece
        }
    }
}

/// Append the serialized form of `j` to `out`, with `ind` the indentation
/// prefix of the current nesting level.
pub fn ser_value(j: &Json, ind: &Vec<char>, out: &mut Vec<char>)
    ensures
        final(out)@ == old(out)@ + sp_ser(jv(*j), ind@),
    decreases *j, 0int,
{
    match j {
        Json::Null => {
            out.push('n');
            out.push('u');
            out.push('l');
            out.push('l');
            assert(out@ =~= old(out)@ + sp_ser(jv(*j), ind@));
        },
        Json::Bool(b) => {
            if *b {
                out.push('t');
                out.push('r');
                out.push('u');
                out.push('e');
            } else {
                out.push('f');
                out.push('a');
                out.push('l');
                out.push('s');
                out.push('e');
            }
            assert(out@ =~= old(out)@ + sp_ser(jv(*j), ind@));
        },
        Json::Num(s) => {
            let mut k: usize = 0;
            while k < s.len()
                invariant
                    k <= s@.len(),
                    out@ == old(out)@ + s@.subrange(0, k as int),
                decreases s@.len() - k,
            {
                out.push(s[k]);
                assert(out@ =~= old(out)@ + s@.subrange(0, k + 1));
                k += 1;
            }
            assert(out@ =~= old(out)@ + sp_ser(jv(*j), ind@));
        },
        Json::Str(s) => {
            out.push('"');
            push_escaped(s, out);
            out.push('"');
            assert(out@ =~= old(out)@ + sp_ser(jv(*j), ind@));
        },
        Json::Arr(a) => {
            if a.len() == 0 {
                out.push('[');
                out.push(']');
                assert(out@ =~= old(out)@ + sp_ser(jv(*j), ind@));
            } else {
                let mut ind2 = clone_chars(ind);
                ind2.push(' ');
                ind2.push(' ');
                assert(ind2@ =~= ind@ + seq![' ', ' ']);
                out.push('[');
                out.push('\n');
                ser_elems(a, 0, &ind2, out);
                out.push('\n');
                push_chars(ind, out);
                out.push(']');
                assert(jv(*j) matches JsonV::Arr(av) && av == jvs(a@)) by {
                    lemma_jv_unfold(*j);
                };
                assert(out@ =~= old(out)@ + sp_ser(jv(*j), ind@));
            }
        },
        Json::Obj(o) => {
            if o.len() == 0 {
                out.push('{');
                out.push('}');
                assert(out@ =~= old(out)@ + sp_ser(jv(*j), ind@));
            } else {
                let mut ind2 = clone_chars(ind);
                ind2.push(' ');
                ind2.push(' ');
                assert(ind2@ =~= ind@ + seq![' ', ' ']);
                out.push('{');
                out.push('\n');
                ser_members(o, 0, &ind2, out);
                out.push('\n');
                push_chars(ind, out);
                out.push('}');
                assert(jv(*j) matches JsonV::Obj(ov) && ov == jvm(o@)) by {
                    lemma_jv_unfold(*j);
                };
                assert(out@ =~= old(out)@ + sp_ser(jv(*j), ind@));
            }
        },
    }
}

/// Append the serialized elements of `a` from index `i` on.
fn ser_elems(a: &Vec<Json>, i: usize, ind2: &Vec<char>, out: &mut Vec<char>)
    requires
        i < a@.len(),
    ensures
        final(out)@ == old(out)@ + sp_ser_elems(jvs(a@), i as int, ind2@),
    decreases *a, a@.len() - i,
{
    let n = a.len();
    push_chars(ind2, out);
    ser_value(&a[i], ind2, out);
    assert(jvs(a@)[i as int] == jv(a@[i as int]));
    if i + 1 < n {
        out.push(',');
        out.push('\n');
        ser_elems(a, i + 1, ind2, out);
        assert(out@ =~= old(out)@ + sp_ser_elems(jvs(a@), i as int, ind2@));
    } else {
        assert(out@ =~= old(out)@ + sp_ser_elems(jvs(a@), i as int, ind2@));
    }
}

/// Append the serialized members of `o` from index `i` on.
fn ser_members(o: &Vec<(Vec<char>, Json)>, i: usize, ind2: &Vec<char>, out: &mut Vec<char>)
    requires
        i < o@.len(),
    ensures
        final(out)@ == old(out)@ + sp_ser_members(jvm(o@), i as int, ind2@),
    decreases *o, o@.len() - i,
{
    let n = o.len();
    push_chars(ind2, out);
    out.push('"');
    push_escaped(&o[i].0, out);
    out.push('"');
    out.push(':');
    out.push(' ');
    ser_value(&o[i].1, ind2, out);
    assert(jvm(o@)[i as int] == (o@[i as int].0@, jv(o@[i as int].1)));
    if i + 1 < n {
        out.push(',');
        out.push('\n');
        ser_members(o, i + 1, ind2, out);
        assert(out@ =~= old(out)@ + sp_ser_members(jvm(o@), i as int, ind2@));
    } else {
        assert(out@ =~= old(out)@ + sp_ser_members(jvm(o@), i as int, ind2@));
    }
}

/// The serialized form of a whole document: the value at indentation
/// zero.
pub open spec fn sp_serialize(v: JsonV) -> Seq<char> {
    sp_ser(v, Seq::empty())
}

/// Serialize a document with stable, human-readable indentation.
pub fn serialize(j: &Json) -> (r: Vec<char>)
    ensures
        r@ == sp_serialize(jv(*j)),
{
    let ind: Vec<char> = Vec::new();
    let mut out: Vec<char> = Vec::new();
    ser_value(j, &ind, &mut out);
    assert(out@ =~= sp_serialize(jv(*j)));
    out
}

/// Relies on `char::from_u32`: the conversion succeeds exactly on Unicode
/// scalar values (not a surrogate, at most 0x10FFFF) and then returns the
/// character with that value.
pub assume_specification[ char::from_u32 ](v: u32) -> (r: Option<char>)
    ensures
        (r is Some) == (v < 0xD800 || (0xE000 <= v && v <= 0x10FFFF)),
        r matches Some(c) ==> c == (v as char) && c as u32 == v,
;

/// A decimal digit.
pub open spec fn is_digit(c: char) -> bool {
    '0' <= c && c <= '9'
}

/// A character that can occur in a JSON number lexeme.
pub open spec fn is_numchar(c: char) -> bool {
    is_digit(c) || c == '-' || c == '+' || c == '.' || c == 'e' || c == 'E'
}

/// The first position at or after `i` that does not hold a decimal digit.
pub open spec fn digits_end(s: Seq<char>, i: int) -> int
    decreases s.len() - i,
{
    if 0 <= i < s.len() && is_digit(s[i]) {
        digits_end(s, i + 1)
    } else {
        i
    }
}

/// The first position at or after `i` that does not hold a number
/// character.
pub open spec fn numchar_end(s: Seq<char>, i: int) -> int
    decreases s.len() - i,
{
    if 0 <= i < s.len() && is_numchar(s[i]) {
        numchar_end(s, i + 1)
    } else {
        i
    }
}

pub proof fn lemma_numchar_end(s: Seq<char>, i: int)
    requires
        0 <= i <= s.len(),
    ensures
        i <= numchar_end(s, i) <= s.len(),
        forall|k: int| i <= k < numchar_end(s, i) ==> is_numchar(s[k]),
        numchar_end(s, i) < s.len() ==> !is_numchar(s[numchar_end(s, i)]),
    decreases s.len() - i,
{
    if i < s.len() && is_numchar(s[i]) {
        lemma_numchar_end(s, i + 1);
    }
}

/// A well-formed JSON number lexeme: an optional minus sign, an integer
/// part without leading zeros, an optional fraction, an optional
/// exponent.
pub open spec fn is_json_number(s: Seq<char>) -> bool {
    let n = s.len() as int;
    let i0: int = if n > 0 && s[0] == '-' { 1 } else { 0 };
    if i0 < n && is_digit(s[i0]) {
        let ie = digits_end(s, i0);
        if s[i0] == '0' && ie != i0 + 1 {
            false
        } else {
            if ie < n && s[ie] == '.' {
                let fe = digits_end(s, ie + 1);
                if fe == ie + 1 {
                    false
                } else {
                    json_number_exp_ok(s, fe)
                }
            } else {
                json_number_exp_ok(s, ie)
            }
        }
    } else {
        false
    }
}

/// From position `fe`, the lexeme either ends or holds a well-formed
/// exponent that runs to its end.
pub open spec fn json_number_exp_ok(s: Seq<char>, fe: int) -> bool {
    let n = s.len() as int;
    if fe == n {
        true
    } else if fe < n && (s[fe] == 'e' || s[fe] == 'E') {
        let g: int = if fe + 1 < n && (s[fe + 1] == '+' || s[fe + 1] == '-') {
            fe + 2
        } else {
            fe + 1
        };
        let ge = digits_end(s, g);
        ge != g && ge == n
    } else {
        false
    }
}

fn digits_end_exec(s: &Vec<char>, i: usize) -> (r: usize)
    requires
        i <= s@.len(),
    ensures
        r == digits_end(s@, i as int),
        i <= r <= s@.len(),
    decreases s@.len() - i,
{
    let mut k = i;
    while k < s.len() && s[k] >= '0' && s[k] <= '9'
        invariant
            i <= k <= s@.len(),
            digits_end(s@, i as int) == digits_end(s@, k as int),
        decreases s@.len() - k,
    {
        k += 1;
    }
    k
}

/// Whether `v` is a well-formed JSON number lexeme.
pub fn check_json_number(v: &Vec<char>) -> (r: bool)
    ensures
        r == is_json_number(v@),
{
    let n = v.len();
    let i0: usize = if n > 0 && v[0] == '-' {
        1
    } else {
        0
    };
    if !(i0 < n && v[i0] >= '0' && v[i0] <= '9') {
        return false;
    }
    let ie = digits_end_exec(v, i0);
    if v[i0] == '0' && ie != i0 + 1 {
        return false;
    }
    let fe: usize = if ie < n && v[ie] == '.' {
        let fe = digits_end_exec(v, ie + 1);
        if fe == ie + 1 {
            return false;
        }
        fe
    } else {
        ie
    };
    if fe == n {
        return true;
    }
    if !(v[fe] == 'e' || v[fe] == 'E') {
        return false;
    }
    let g: usize = if fe + 1 < n && (v[fe + 1] == '+' || v[fe + 1] == '-') {
        fe + 2
    } else {
        fe + 1
    };
    if g > n {
        return false;
    }
    let ge = digits_end_exec(v, g);
    ge != g && ge == n
}

/// A hexadecimal digit.
pub open spec fn is_hex(c: char) -> bool {
    is_digit(c) || ('a' <= c && c <= 'f') || ('A' <= c && c <= 'F')
}

/// The value of a hexadecimal digit.
pub open spec fn hex_val(c: char) -> int {
    if is_digit(c) {
        c as int - '0' as int
    } else if 'a' <= c && c <= 'f' {
        c as int - 'a' as int + 10
    } else {
        c as int - 'A' as int + 10
    }
}

fn is_hex_exec(c: char) -> (r: bool)
    ensures
        r == is_hex(c),
{
    (c >= '0' && c <= '9') || (c >= 'a' && c <= 'f') || (c >= 'A' && c <= 'F')
}

fn hex_val_exec(c: char) -> (r: u32)
    requires
        is_hex(c),
    ensures
        r == hex_val(c),
        r < 16,
{
    if c >= '0' && c <= '9' {
        c as u32 - '0' as u32
    } else if c >= 'a' && c <= 'f' {
        c as u32 - 'a' as u32 + 10
    } else {
        c as u32 - 'A' as u32 + 10
    }
}

/// What a single-character escape stands for; `\u` is handled apart.
pub open spec fn unesc(e: char) -> Option<char> {
    if e == '"' { Some('"') }
    else if e == '\\' { Some('\\') }
    else if e == '/' { Some('/') }
    else if e == 'n' { Some('\n') }
    else if e == 't' { Some('\t') }
    else if e == 'r' { Some('\r') }
    else if e == 'b' { Some('\u{8}') }
    else if e == 'f' { Some('\u{c}') }
    else { None }
}

fn unesc_exec(e: char) -> (r: Option<char>)
    ensures
        r == unesc(e),
{
    if e == '"' { Some('"') }
    else if e == '\\' { Some('\\') }
    else if e == '/' { Some('/') }
    else if e == 'n' { Some('\n') }
    else if e == 't' { Some('\t') }
    else if e == 'r' { Some('\r') }
    else if e == 'b' { Some('\u{8}') }
    else if e == 'f' { Some('\u{c}') }
    else { None }
}

/// The body of a string literal read from position `i` (just after the
/// opening quote): the decoded characters and the position after the
/// closing quote.
pub open spec fn sp_parse_string(s: Seq<char>, i: int) -> Option<(Seq<char>, int)>
    decreases s.len() - i,
{
    if i < 0 || i >= s.len() {
        None
    } else if s[i] == '"' {
        Some((Seq::empty(), i + 1))
    } else if s[i] == '\\' {
        if i + 1 >= s.len() {
            None
        } else if s[i + 1] == 'u' {
            if i + 6 <= s.len() && is_hex(s[i + 2]) && is_hex(s[i + 3]) && is_hex(s[i + 4])
                && is_hex(s[i + 5]) {
                let code = (hex_val(s[i + 2]) * 4096 + hex_val(s[i + 3]) * 256 + hex_val(s[i + 4])
                    * 16 + hex_val(s[i + 5])) as u32;
                if code < 0xD800 || code >= 0xE000 {
                    match sp_parse_string(s, i + 6) {
                        Some((rest, j)) => Some((seq![code as char] + rest, j)),
                        None => None,
                    }
                } else {
                    None
                }
            } else {
                None
            }
        } else {
            match unesc(s[i + 1]) {
                Some(c) => match sp_parse_string(s, i + 2) {
                    Some((rest, j)) => Some((seq![c] + rest, j)),
                    None => None,
                },
                None => None,
            }
        }
    } else {
        match sp_parse_string(s, i + 1) {
            Some((rest, j)) => Some((seq![s[i]] + rest, j)),
            None => None,
        }
    }
}

/// `r` with `p` put before its decoded characters.
pub open spec fn prepend_opt(p: Seq<char>, r: Option<(Seq<char>, int)>) -> Option<
    (Seq<char>, int),
> {
    match r {
        Some((cs, j)) => Some((p + cs, j)),
        None => None,
    }
}

proof fn lemma_prepend_assoc(a: Seq<char>, b: Seq<char>, r: Option<(Seq<char>, int)>)
    ensures
        prepend_opt(a, prepend_opt(b, r)) == prepend_opt(a + b, r),
{
    match r {
        Some((cs, j)) => {
            assert((a + (b + cs)) =~= ((a + b) + cs));
        },
        None => {},
    }
}

/// Read a string-literal body from position `i` (just after the opening
/// quote).
pub fn parse_string(s: &Vec<char>, i: usize) -> (r: Option<(Vec<char>, usize)>)
    requires
        i <= s@.len(),
    ensures
        match (r, sp_parse_string(s@, i as int)) {
            (Some((cs, j)), Some((scs, sj))) => cs@ == scs && j as int == sj && j <= s@.len(),
            (None, None) => true,
            _ => false,
        },
{
    let n = s.len();
    let mut acc: Vec<char> = Vec::new();
    let mut k = i;
    loop
        invariant
            i <= k <= n,
            n == s@.len(),
            sp_parse_string(s@, i as int) == prepend_opt(acc@, sp_parse_string(s@, k as int)),
        decreases n - k,
    {
        if k >= n {
            return None;
        }
        let c = s[k];
        if c == '"' {
            assert(acc@ + Seq::<char>::empty() =~= acc@);
            return Some((acc, k + 1));
        }
        if c == '\\' {
            if k + 1 >= n {
                return None;
            }
            let e = s[k + 1];
            if e == 'u' {
                if !(n - k >= 6 && is_hex_exec(s[k + 2]) && is_hex_exec(s[k + 3]) && is_hex_exec(
                    s[k + 4],
                ) && is_hex_exec(s[k + 5])) {
                    return None;
                }
                let code: u32 = hex_val_exec(s[k + 2]) * 4096 + hex_val_exec(s[k + 3]) * 256
                    + hex_val_exec(s[k + 4]) * 16 + hex_val_exec(s[k + 5]);
                if !(code < 0xD800 || code >= 0xE000) {
                    return None;
                }
                let ch = match char::from_u32(code) {
                    Some(ch) => ch,
                    None => {
                        proof {
                            assert(false);
                        }
                        return None;
                    },
                };
                proof {
                    lemma_prepend_assoc(
                        acc@,
                        seq![ch],
                        sp_parse_string(s@, k as int + 6),
                    );
                }
                acc.push(ch);
                k += 6;
            } else {
                let ch = match unesc_exec(e) {
                    Some(ch) => ch,
                    None => {
                        return None;
                    },
                };
                proof {
                    lemma_prepend_assoc(
                        acc@,
                        seq![ch],
                        sp_parse_string(s@, k as int + 2),
                    );
                }
                acc.push(ch);
                k += 2;
            }
        } else {
            proof {
                lemma_prepend_assoc(acc@, seq![c], sp_parse_string(s@, k as int + 1));
            }
            acc.push(c);
            k += 1;
        }
    }
}

/// A number token read from position `i`: the maximal run of number
/// characters, accepted when it is a well-formed lexeme.
pub open spec fn sp_parse_number(s: Seq<char>, i: int) -> Option<(JsonV, int)> {
    let ne = numchar_end(s, i);
    if ne > i && is_json_number(s.subrange(i, ne)) {
        Some((JsonV::Num(s.subrange(i, ne)), ne))
    } else {
        None
    }
}

/// Read a number token from position `i`.
fn parse_number(s: &Vec<char>, i: usize) -> (r: Option<(Json, usize)>)
    requires
        i <= s@.len(),
    ensures
        match (r, sp_parse_number(s@, i as int)) {
            (Some((v, j)), Some((sv, sj))) => jv(v) == sv && j as int == sj && j <= s@.len(),
            (None, None) => true,
            _ => false,
        },
{
    let n = s.len();
    let mut ne = i;
    while ne < n && is_numchar_exec(s[ne])
        invariant
            i <= ne <= n,
            n == s@.len(),
            numchar_end(s@, i as int) == numchar_end(s@, ne as int),
        decreases n - ne,
    {
        ne += 1;
    }
    if ne == i {
        return None;
    }
    let mut lex: Vec<char> = Vec::new();
    let mut k = i;
    while k < ne
        invariant
            i <= k <= ne <= n,
            n == s@.len(),
            lex@ == s@.subrange(i as int, k as int),
        decreases ne - k,
    {
        lex.push(s[k]);
        assert(lex@ =~= s@.subrange(i as int, k + 1));
        k += 1;
    }
    if check_json_number(&lex) {
        Some((Json::Num(lex), ne))
    } else {
        None
    }
}

fn is_numchar_exec(c: char) -> (r: bool)
    ensures
        r == is_numchar(c),
{
    (c >= '0' && c <= '9') || c == '-' || c == '+' || c == '.' || c == 'e' || c == 'E'
}

fn is_jws_exec(c: char) -> (r: bool)
    ensures
        r == is_jws(c),
{
    c == ' ' || c == '\t' || c == '\n' || c == '\r'
}

/// Skip JSON whitespace from position `i`.
fn skip_jws(s: &Vec<char>, i: usize) -> (r: usize)
    requires
        i <= s@.len(),
    ensures
        r == jws_end(s@, i as int),
        i <= r <= s@.len(),
{
    let n = s.len();
    let mut k = i;
    while k < n && is_jws_exec(s[k])
        invariant
            i <= k <= n,
            n == s@.len(),
            jws_end(s@, i as int) == jws_end(s@, k as int),
        decreases n - k,
    {
        k += 1;
    }
    k
}

/// A value read from position `i`, after leading whitespace: the value's
/// model and the position just after it.
pub open spec fn sp_parse_value(s: Seq<char>, i: int) -> Option<(JsonV, int)>
    decreases s.len() - i, 0int,
{
    let j = jws_end(s, i);
    if j < i || j >= s.len() {
        None
    } else {
        let c = s[j];
        if c == '[' {
            match sp_parse_elems(s, j + 1) {
                Some((vs, j2)) => Some((JsonV::Arr(vs), j2)),
                None => None,
            }
        } else if c == '{' {
            match sp_parse_members(s, j + 1) {
                Some((ms, j2)) => Some((JsonV::Obj(ms), j2)),
                None => None,
            }
        } else if c == '"' {
            match sp_parse_string(s, j + 1) {
                Some((cs, j2)) => Some((JsonV::Str(cs), j2)),
                None => None,
            }
        } else if c == 'n' {
            if j + 4 <= s.len() && s[j + 1] == 'u' && s[j + 2] == 'l' && s[j + 3] == 'l' {
                Some((JsonV::Null, j + 4))
            } else {
                None
            }
        } else if c == 't' {
            if j + 4 <= s.len() && s[j + 1] == 'r' && s[j + 2] == 'u' && s[j + 3] == 'e' {
                Some((JsonV::Bool(true), j + 4))
            } else {
                None
            }
        } else if c == 'f' {
            if j + 5 <= s.len() && s[j + 1] == 'a' && s[j + 2] == 'l' && s[j + 3] == 's' && s[j + 4]
                == 'e' {
                Some((JsonV::Bool(false), j + 5))
            } else {
                None
            }
        } else if c == '-' || is_digit(c) {
            sp_parse_number(s, j)
        } else {
            None
        }
    }
}

/// The elements of an array read from position `k` (just after the
/// opening bracket): nothing before a closing bracket, or one or more
/// comma-separated values.
pub open spec fn sp_parse_elems(s: Seq<char>, k: int) -> Option<(Seq<JsonV>, int)>
    decreases s.len() - k, 2int,
{
    let j = jws_end(s, k);
    if j < k || j >= s.len() {
        None
    } else if s[j] == ']' {
        Some((Seq::empty(), j + 1))
    } else {
        sp_parse_elems_more(s, k)
    }
}

/// One or more comma-separated values followed by the closing bracket.
pub open spec fn sp_parse_elems_more(s: Seq<char>, k: int) -> Option<(Seq<JsonV>, int)>
    decreases s.len() - k, 1int,
{
    if k < 0 || k > s.len() {
        None
    } else {
        match sp_parse_value(s, k) {
            Some((v, i2)) => {
                if i2 <= k || i2 > s.len() {
                    None
                } else {
                    let j2 = jws_end(s, i2);
                    if j2 < i2 || j2 >= s.len() {
                        None
                    } else if s[j2] == ',' {
                        match sp_parse_elems_more(s, j2 + 1) {
                            Some((rest, j3)) => Some((seq![v] + rest, j3)),
                            None => None,
                        }
                    } else if s[j2] == ']' {
                        Some((seq![v], j2 + 1))
                    } else {
                        None
                    }
                }
            },
            None => None,
        }
    }
}

/// The members of an object read from position `k` (just after the
/// opening brace): nothing before a closing brace, or one or more
/// comma-separated members.
pub open spec fn sp_parse_members(s: Seq<char>, k: int) -> Option<(Seq<(Seq<char>, JsonV)>, int)>
    decreases s.len() - k, 2int,
{
    let j = jws_end(s, k);
    if j < k || j >= s.len() {
        None
    } else if s[j] == '}' {
        Some((Seq::empty(), j + 1))
    } else {
        sp_parse_members_more(s, k)
    }
}

/// One or more comma-separated members followed by the closing brace.
pub open spec fn sp_parse_members_more(s: Seq<char>, k: int) -> Option<
    (Seq<(Seq<char>, JsonV)>, int),
>
    decreases s.len() - k, 1int,
{
    let j = jws_end(s, k);
    if j < k || j >= s.len() {
        None
    } else if s[j] == '"' {
        match sp_parse_string(s, j + 1) {
            Some((key, i2)) => {
                if i2 <= k || i2 > s.len() {
                    None
                } else {
                    let j2 = jws_end(s, i2);
                    if j2 < i2 || j2 >= s.len() {
                        None
                    } else if s[j2] == ':' {
                        match sp_parse_value(s, j2 + 1) {
                            Some((v, i3)) => {
                                if i3 <= j2 || i3 > s.len() {
                                    None
                                } else {
                                    let j3 = jws_end(s, i3);
                                    if j3 < i3 || j3 >= s.len() {
                                        None
                                    } else if s[j3] == ',' {
                                        match sp_parse_members_more(s, j3 + 1) {
                                            Some((rest, j4)) => Some((seq![(key, v)] + rest, j4)),
                                            None => None,
                                        }
                                    } else if s[j3] == '}' {
                                        Some((seq![(key, v)], j3 + 1))
                                    } else {
                                        None
                                    }
                                }
                            },
                            None => None,
                        }
                    } else {
                        None
                    }
                }
            },
            None => None,
        }
    } else {
        None
    }
}

/// Read a value from position `i`.
pub fn parse_value(s: &Vec<char>, i: usize) -> (r: Option<(Json, usize)>)
    requires
        i <= s@.len(),
    ensures
        match (r, sp_parse_value(s@, i as int)) {
            (Some((v, j)), Some((sv, sj))) => jv(v) == sv && j as int == sj && j <= s@.len(),
            (None, None) => true,
            _ => false,
        },
    decreases s@.len() - i, 0int,
{
    let n = s.len();
    let j = skip_jws(s, i);
    if j >= n {
        return None;
    }
    let c = s[j];
    if c == '[' {
        match parse_elems(s, j + 1) {
            Some((vs, j2)) => {
                proof {
                    lemma_jv_unfold(Json::Arr(vs));
                }
                Some((Json::Arr(vs), j2))
            },
            None => None,
        }
    } else if c == '{' {
        match parse_members(s, j + 1) {
            Some((ms, j2)) => {
                proof {
                    lemma_jv_unfold(Json::Obj(ms));
                }
                Some((Json::Obj(ms), j2))
            },
            None => None,
        }
    } else if c == '"' {
        match parse_string(s, j + 1) {
            Some((cs, j2)) => Some((Json::Str(cs), j2)),
            None => None,
        }
    } else if c == 'n' {
        if n - j >= 4 && s[j + 1] == 'u' && s[j + 2] == 'l' && s[j + 3] == 'l' {
            Some((Json::Null, j + 4))
        } else {
            None
        }
    } else if c == 't' {
        if n - j >= 4 && s[j + 1] == 'r' && s[j + 2] == 'u' && s[j + 3] == 'e' {
            Some((Json::Bool(true), j + 4))
        } else {
            None
        }
    } else if c == 'f' {
        if n - j >= 5 && s[j + 1] == 'a' && s[j + 2] == 'l' && s[j + 3] == 's' && s[j + 4] == 'e' {
            Some((Json::Bool(false), j + 5))
        } else {
            None
        }
    } else if c == '-' || (c >= '0' && c <= '9') {
        parse_number(s, j)
    } else {
        None
    }
}

/// Read array elements from position `k`.
fn parse_elems(s: &Vec<char>, k: usize) -> (r: Option<(Vec<Json>, usize)>)
    requires
        k <= s@.len(),
    ensures
        match (r, sp_parse_elems(s@, k as int)) {
            (Some((vs, j)), Some((svs, sj))) => jvs(vs@) == svs && j as int == sj && j <= s@.len(),
            (None, None) => true,
            _ => false,
        },
    decreases s@.len() - k, 2int,
{
    let n = s.len();
    let j = skip_jws(s, k);
    if j >= n {
        return None;
    }
    if s[j] == ']' {
        let empty: Vec<Json> = Vec::new();
        assert(jvs(empty@) =~= Seq::<JsonV>::empty());
        return Some((empty, j + 1));
    }
    parse_elems_more(s, k)
}

/// Read one or more comma-separated array elements from position `k`.
fn parse_elems_more(s: &Vec<char>, k: usize) -> (r: Option<(Vec<Json>, usize)>)
    requires
        k <= s@.len(),
    ensures
        match (r, sp_parse_elems_more(s@, k as int)) {
            (Some((vs, j)), Some((svs, sj))) => jvs(vs@) == svs && j as int == sj && j <= s@.len(),
            (None, None) => true,
            _ => false,
        },
    decreases s@.len() - k, 1int,
{
    let n = s.len();
    match parse_value(s, k) {
        Some((v, i2)) => {
            if i2 <= k {
                return None;
            }
            let j2 = skip_jws(s, i2);
            if j2 >= n {
                return None;
            }
            if s[j2] == ',' {
                match parse_elems_more(s, j2 + 1) {
                    Some((mut rest, j3)) => {
                        let ghost old_rest = rest@;
                        let ghost gv = v;
                        rest.insert(0, v);
                        assert(jvs(rest@) =~= seq![jv(gv)] + jvs(old_rest));
                        Some((rest, j3))
                    },
                    None => None,
                }
            } else if s[j2] == ']' {
                let mut one: Vec<Json> = Vec::new();
                let ghost gv = v;
                one.push(v);
                assert(jvs(one@) =~= seq![jv(gv)]);
                Some((one, j2 + 1))
            } else {
                None
            }
        },
        None => None,
    }
}

/// Read object members from position `k`.
fn parse_members(s: &Vec<char>, k: usize) -> (r: Option<(Vec<(Vec<char>, Json)>, usize)>)
    requires
        k <= s@.len(),
    ensures
        match (r, sp_parse_members(s@, k as int)) {
            (Some((ms, j)), Some((sms, sj))) => jvm(ms@) == sms && j as int == sj && j <= s@.len(),
            (None, None) => true,
            _ => false,
        },
    decreases s@.len() - k, 2int,
{
    let n = s.len();
    let j = skip_jws(s, k);
    if j >= n {
        return None;
    }
    if s[j] == '}' {
        let empty: Vec<(Vec<char>, Json)> = Vec::new();
        assert(jvm(empty@) =~= Seq::<(Seq<char>, JsonV)>::empty());
        return Some((empty, j + 1));
    }
    parse_members_more(s, k)
}

/// Read one or more comma-separated object members from position `k`.
fn parse_members_more(s: &Vec<char>, k: usize) -> (r: Option<(Vec<(Vec<char>, Json)>, usize)>)
    requires
        k <= s@.len(),
    ensures
        match (r, sp_parse_members_more(s@, k as int)) {
            (Some((ms, j)), Some((sms, sj))) => jvm(ms@) == sms && j as int == sj && j <= s@.len(),
            (None, None) => true,
            _ => false,
        },
    decreases s@.len() - k, 1int,
{
    let n = s.len();
    let j = skip_jws(s, k);
    if j >= n {
        return None;
    }
    if s[j] != '"' {
        return None;
    }
    match parse_string(s, j + 1) {
        Some((key, i2)) => {
            if i2 <= k {
                return None;
            }
            let j2 = skip_jws(s, i2);
            if j2 >= n {
                return None;
            }
            if s[j2] != ':' {
                return None;
            }
            match parse_value(s, j2 + 1) {
                Some((v, i3)) => {
                    if i3 <= j2 {
                        return None;
                    }
                    let j3 = skip_jws(s, i3);
                    if j3 >= n {
                        return None;
                    }
                    if s[j3] == ',' {
                        match parse_members_more(s, j3 + 1) {
                            Some((mut rest, j4)) => {
                                let ghost old_rest = rest@;
                                let ghost gk = key@;
                                let ghost gv = v;
                                rest.insert(0, (key, v));
                                assert(jvm(rest@) =~= seq![(gk, jv(gv))] + jvm(old_rest));
                                Some((rest, j4))
                            },
                            None => None,
                        }
                    } else if s[j3] == '}' {
                        let mut one: Vec<(Vec<char>, Json)> = Vec::new();
                        let ghost gk = key@;
                        let ghost gv = v;
                        one.push((key, v));
                        assert(jvm(one@) =~= seq![(gk, jv(gv))]);
                        Some((one, j3 + 1))
                    } else {
                        None
                    }
                },
                None => None,
            }
        },
        None => None,
    }
}

/// The model of a whole document: one value with nothing but whitespace
/// after it.
pub open spec fn sp_parse_doc(s: Seq<char>) -> Option<JsonV> {
    match sp_parse_value(s, 0) {
        Some((v, i)) => {
            if jws_end(s, i) == s.len() {
                Some(v)
            } else {
                None
            }
        },
        None => None,
    }
}

/// A document the serializer can write and the parser read back: every
/// number lexeme is a well-formed JSON number.
pub open spec fn wf_json(v: JsonV) -> bool
    decreases v, 0int,
{
    match v {
        JsonV::Null => true,
        JsonV::Bool(_) => true,
        JsonV::Num(s) => is_json_number(s),
        JsonV::Str(_) => true,
        JsonV::Arr(a) => wf_elems(a, 0),
        JsonV::Obj(o) => wf_members(o, 0),
    }
}

/// The elements from position `i` on are well formed.
pub open spec fn wf_elems(a: Seq<JsonV>, i: int) -> bool
    decreases a, a.len() - i,
{
    if i < 0 || i >= a.len() {
        true
    } else {
        wf_json(a[i]) && wf_elems(a, i + 1)
    }
}

/// The member values from position `i` on are well formed.
pub open spec fn wf_members(o: Seq<(Seq<char>, JsonV)>, i: int) -> bool
    decreases o, o.len() - i,
{
    if i < 0 || i >= o.len() {
        true
    } else {
        wf_json(o[i].1) && wf_members(o, i + 1)
    }
}

pub proof fn lemma_wf_elems_index(a: Seq<JsonV>, i: int, k: int)
    requires
        wf_elems(a, i),
        0 <= i <= k < a.len(),
    ensures
        wf_json(a[k]),
    decreases k - i,
{
    if i < k {
        lemma_wf_elems_index(a, i + 1, k);
    }
}

pub proof fn lemma_wf_members_index(o: Seq<(Seq<char>, JsonV)>, i: int, k: int)
    requires
        wf_members(o, i),
        0 <= i <= k < o.len(),
    ensures
        wf_json(o[k].1),
    decreases k - i,
{
    if i < k {
        lemma_wf_members_index(o, i + 1, k);
    }
}

proof fn lemma_digits_end(s: Seq<char>, i: int)
    requires
        0 <= i <= s.len(),
    ensures
        i <= digits_end(s, i) <= s.len(),
        forall|k: int| i <= k < digits_end(s, i) ==> is_digit(s[k]),
        digits_end(s, i) < s.len() ==> !is_digit(s[digits_end(s, i)]),
    decreases s.len() - i,
{
    if i < s.len() && is_digit(s[i]) {
        lemma_digits_end(s, i + 1);
    }
}

/// A well-formed number lexeme is nonempty, starts with a sign or a
/// digit, and holds number characters only.
proof fn lemma_number_chars(lex: Seq<char>)
    requires
        is_json_number(lex),
    ensures
        lex.len() > 0,
        forall|k: int| 0 <= k < lex.len() ==> is_numchar(lex[k]),
        lex[0] == '-' || is_digit(lex[0]),
{
    let n = lex.len() as int;
    let i0: int = if n > 0 && lex[0] == '-' {
        1
    } else {
        0
    };
    let ie = digits_end(lex, i0);
    lemma_digits_end(lex, i0);
    if ie < n && lex[ie] == '.' {
        let fe = digits_end(lex, ie + 1);
        lemma_digits_end(lex, ie + 1);
        lemma_number_exp_chars(lex, fe);
        assert forall|k: int| 0 <= k < n implies is_numchar(lex[k]) by {
            if k < i0 {
            } else if k < ie {
            } else if k == ie {
            } else if k < fe {
            } else {
                lemma_number_exp_chars(lex, fe);
            }
        }
    } else {
        lemma_number_exp_chars(lex, ie);
        assert forall|k: int| 0 <= k < n implies is_numchar(lex[k]) by {
            if k < i0 {
            } else if k < ie {
            } else {
                lemma_number_exp_chars(lex, ie);
            }
        }
    }
}

/// From a position where the exponent part is well formed to the end,
/// every character is a number character.
proof fn lemma_number_exp_chars(lex: Seq<char>, fe: int)
    requires
        0 <= fe <= lex.len(),
        json_number_exp_ok(lex, fe),
    ensures
        forall|k: int| fe <= k < lex.len() ==> is_numchar(lex[k]),
{
    let n = lex.len() as int;
    if fe < n {
        let g: int = if fe + 1 < n && (lex[fe + 1] == '+' || lex[fe + 1] == '-') {
            fe + 2
        } else {
            fe + 1
        };
        assert(g <= n);
        lemma_digits_end(lex, g);
        assert forall|k: int| fe <= k < n implies is_numchar(lex[k]) by {
            if k == fe {
            } else if k < g {
            } else {
                lemma_digits_end(lex, g);
            }
        }
    }
}

proof fn lemma_escaped_upto_split(s: Seq<char>, i: int)
    requires
        1 <= i <= s.len(),
        s.len() > 0,
    ensures
        escaped_upto(s, i) == esc_char(s[0]) + escaped_upto(s.drop_first(), i - 1),
    decreases i,
{
    let t = s.drop_first();
    if i == 1 {
        assert(escaped_upto(s, 1) == escaped_upto(s, 0) + esc_char(s[0]));
        assert(Seq::<char>::empty() + esc_char(s[0]) =~= esc_char(s[0]));
        assert(esc_char(s[0]) + escaped_upto(t, 0) =~= esc_char(s[0]));
    } else {
        lemma_escaped_upto_split(s, i - 1);
        assert(s[i - 1] == t[i - 2]);
        assert((esc_char(s[0]) + escaped_upto(t, i - 2)) + esc_char(t[i - 2]) =~= esc_char(s[0])
            + (escaped_upto(t, i - 2) + esc_char(t[i - 2])));
    }
}

/// The escape of a nonempty string begins with the escape of its first
/// character.
proof fn lemma_escaped_drop_first(s: Seq<char>)
    requires
        s.len() > 0,
    ensures
        escaped(s) == esc_char(s[0]) + escaped(s.drop_first()),
{
    lemma_escaped_upto_split(s, s.len() as int);
}

proof fn lemma_u32_char_round(c: char, u: u32)
    requires
        u == c as u32,
        u < 0xD800,
    ensures
        (u as char) == c,
{
}

proof fn lemma_hex_digit_value(v: int)
    requires
        0 <= v < 16,
    ensures
        is_hex(hex_digit(v)),
        hex_val(hex_digit(v)) == v,
{
}

/// Reading a string literal body inverts escaping: from text that holds
/// the escaped body, the closing quote, and anything after it, the
/// parser returns exactly the body and stops after the quote.
/// Reading a string literal body inverts escaping: from text that holds
/// the escaped body, the closing quote, and anything after it, the
/// parser returns exactly the body and stops after the quote.
proof fn lemma_parse_string_escaped(s: Seq<char>, p: int, body: Seq<char>, rest: Seq<char>)
    requires
        0 <= p <= s.len(),
        s.subrange(p, s.len() as int) =~= escaped(body) + seq!['"'] + rest,
    ensures
        sp_parse_string(s, p) == Some((body, s.len() - rest.len())),
    decreases body.len(), 1int,
{
    let suffix = s.subrange(p, s.len() as int);
    assert(forall|k: int| p <= k < s.len() ==> s[k] == suffix[k - p]);
    if body.len() == 0 {
        assert(escaped(body) =~= Seq::<char>::empty());
        assert(suffix.len() == 1 + rest.len());
        assert(suffix[0] == '"');
        assert(s[p] == suffix[0]);
        assert(sp_parse_string(s, p) == Some((Seq::<char>::empty(), p + 1)));
        assert(body =~= Seq::<char>::empty());
    } else {
        let c = body[0];
        if c == '"' || c == '\\' || c == '\n' || c == '\t' || c == '\r' {
            lemma_pse_twochar(s, p, body, rest);
        } else if (c as u32) < 0x20 {
            lemma_pse_unicode(s, p, body, rest);
        } else {
            lemma_pse_plain(s, p, body, rest);
        }
    }
}

proof fn lemma_pse_twochar(s: Seq<char>, p: int, body: Seq<char>, rest: Seq<char>)
    requires
        0 <= p <= s.len(),
        s.subrange(p, s.len() as int) =~= escaped(body) + seq!['"'] + rest,
        body.len() > 0,
        body[0] == '"' || body[0] == '\\' || body[0] == '\n' || body[0] == '\t' || body[0]
            == '\r',
    ensures
        sp_parse_string(s, p) == Some((body, s.len() - rest.len())),
    decreases body.len(), 0int,
{
    let suffix = s.subrange(p, s.len() as int);
    assert(forall|k: int| p <= k < s.len() ==> s[k] == suffix[k - p]);
    let c = body[0];
    let e = esc_char(c);
    lemma_escaped_drop_first(body);
    let tail = escaped(body.drop_first()) + seq!['"'] + rest;
    assert(suffix =~= e + tail);
    assert(e.len() == 2);
    assert(s[p] == e[0] && s[p + 1] == e[1]);
    assert(s[p] == '\\');
    assert(s[p + 1] != 'u');
    assert(unesc(s[p + 1]) == Some(c));
    assert(s.subrange(p + 2, s.len() as int) =~= tail);
    lemma_parse_string_escaped(s, p + 2, body.drop_first(), rest);
    assert(seq![c] + body.drop_first() =~= body);
}

#[verifier::rlimit(60)]
proof fn lemma_pse_unicode(s: Seq<char>, p: int, body: Seq<char>, rest: Seq<char>)
    requires
        0 <= p <= s.len(),
        s.subrange(p, s.len() as int) =~= escaped(body) + seq!['"'] + rest,
        body.len() > 0,
        !(body[0] == '"' || body[0] == '\\' || body[0] == '\n' || body[0] == '\t' || body[0]
            == '\r'),
        (body[0] as u32) < 0x20,
    ensures
        sp_parse_string(s, p) == Some((body, s.len() - rest.len())),
    decreases body.len(), 0int,
{
    let suffix = s.subrange(p, s.len() as int);
    assert(forall|k: int| p <= k < s.len() ==> s[k] == suffix[k - p]);
    let c = body[0];
    let e = esc_char(c);
    lemma_escaped_drop_first(body);
    let tail = escaped(body.drop_first()) + seq!['"'] + rest;
    assert(suffix =~= e + tail);
    let hi = (c as u32) as int / 16;
    let lo = (c as u32) as int % 16;
    assert(e =~= seq!['\\', 'u', '0', '0', hex_digit(hi), hex_digit(lo)]);
    assert(e.len() == 6);
    assert(s[p] == '\\' && s[p + 1] == 'u');
    assert(s[p + 2] == '0' && s[p + 3] == '0');
    assert(s[p + 4] == hex_digit(hi) && s[p + 5] == hex_digit(lo));
    lemma_hex_digit_value(hi);
    lemma_hex_digit_value(lo);
    lemma_hex_digit_value(0);
    let code = (hex_val(s[p + 2]) * 4096 + hex_val(s[p + 3]) * 256 + hex_val(s[p + 4]) * 16
        + hex_val(s[p + 5])) as u32;
    assert(code == c as u32) by {
        assert(hex_val(s[p + 2]) == 0 && hex_val(s[p + 3]) == 0);
        assert(hex_val(s[p + 4]) == hi && hex_val(s[p + 5]) == lo);
        assert(hi * 16 + lo == c as u32);
    }
    assert(code < 0xD800);
    lemma_u32_char_round(c, code);
    assert((code as char) == c);
    assert(s.subrange(p + 6, s.len() as int) =~= tail);
    lemma_parse_string_escaped(s, p + 6, body.drop_first(), rest);
    assert(seq![code as char] + body.drop_first() =~= body);
}

proof fn lemma_pse_plain(s: Seq<char>, p: int, body: Seq<char>, rest: Seq<char>)
    requires
        0 <= p <= s.len(),
        s.subrange(p, s.len() as int) =~= escaped(body) + seq!['"'] + rest,
        body.len() > 0,
        !(body[0] == '"' || body[0] == '\\' || body[0] == '\n' || body[0] == '\t' || body[0]
            == '\r'),
        !((body[0] as u32) < 0x20),
    ensures
        sp_parse_string(s, p) == Some((body, s.len() - rest.len())),
    decreases body.len(), 0int,
{
    let suffix = s.subrange(p, s.len() as int);
    assert(forall|k: int| p <= k < s.len() ==> s[k] == suffix[k - p]);
    let c = body[0];
    let e = esc_char(c);
    lemma_escaped_drop_first(body);
    let tail = escaped(body.drop_first()) + seq!['"'] + rest;
    assert(suffix =~= e + tail);
    assert(e =~= seq![c]);
    assert(s[p] == c);
    assert(s[p] != '"' && s[p] != '\\');
    assert(s.subrange(p + 1, s.len() as int) =~= tail);
    lemma_parse_string_escaped(s, p + 1, body.drop_first(), rest);
    assert(seq![s[p]] + body.drop_first() =~= body);
}

proof fn lemma_jws_end_known(s: Seq<char>, i: int, j: int)
    requires
        0 <= i <= j <= s.len(),
        forall|k: int| i <= k < j ==> is_jws(s[k]),
        j == s.len() || !is_jws(s[j]),
    ensures
        jws_end(s, i) == j,
    decreases j - i,
{
    if i < j {
        lemma_jws_end_known(s, i + 1, j);
    }
}

proof fn lemma_numchar_end_known(s: Seq<char>, i: int, j: int)
    requires
        0 <= i <= j <= s.len(),
        forall|k: int| i <= k < j ==> is_numchar(s[k]),
        j == s.len() || !is_numchar(s[j]),
    ensures
        numchar_end(s, i) == j,
    decreases j - i,
{
    if i < j {
        lemma_numchar_end_known(s, i + 1, j);
    }
}

/// The serialized form of a well-formed value is nonempty and begins
/// with a character that is neither whitespace nor a closing token.
proof fn lemma_ser_first_char(v: JsonV, ind: Seq<char>)
    requires
        wf_json(v),
    ensures
        sp_ser(v, ind).len() > 0,
        !is_jws(sp_ser(v, ind)[0]),
        sp_ser(v, ind)[0] != ']',
        sp_ser(v, ind)[0] != '}',
        sp_ser(v, ind)[0] != ',',
{
    match v {
        JsonV::Num(lex) => {
            lemma_number_chars(lex);
        },
        _ => {},
    }
}

proof fn lemma_suffix_shift(s: Seq<char>, i: int, d: int)
    requires
        0 <= i,
        0 <= d,
        i + d <= s.len(),
    ensures
        s.subrange(i + d, s.len() as int) == s.subrange(i, s.len() as int).subrange(
            d,
            s.len() - i,
        ),
{
    assert(s.subrange(i + d, s.len() as int) =~= s.subrange(i, s.len() as int).subrange(
        d,
        s.len() - i,
    )) by {
        assert(forall|t: int|
            0 <= t < s.len() - i - d ==> #[trigger] s.subrange(i + d, s.len() as int)[t] == s[i + d
                + t]);
        assert(forall|t: int|
            0 <= t < s.len() - i ==> #[trigger] s.subrange(i, s.len() as int)[t] == s[i + t]);
    }
}

/// From a three-part description of the text after `i`, the suffixes
/// that start after the first part and after the second.
proof fn lemma_region_after(s: Seq<char>, i: int, a: Seq<char>, b: Seq<char>, c: Seq<char>)
    requires
        0 <= i <= s.len(),
        s.subrange(i, s.len() as int) == a + b + c,
    ensures
        s.len() == i + a.len() + b.len() + c.len(),
        s.subrange(i + a.len() as int, s.len() as int) == b + c,
        s.subrange(i + a.len() + b.len(), s.len() as int) == c,
{
    assert(s.subrange(i, s.len() as int).len() == s.len() - i);
    assert((a + b + c).len() == a.len() + b.len() + c.len());
    lemma_suffix_shift(s, i, a.len() as int);
    assert((a + b + c).subrange(a.len() as int, (a.len() + b.len() + c.len()) as int) =~= b + c);
    lemma_suffix_shift(s, i, (a.len() + b.len()) as int);
    assert((a + b + c).subrange((a.len() + b.len()) as int, (a.len() + b.len() + c.len()) as int) =~= c);
}

proof fn lemma_concat3_regions(s: Seq<char>, i: int, a: Seq<char>, b: Seq<char>, c: Seq<char>)
    requires
        0 <= i <= s.len(),
        s.subrange(i, s.len() as int) == a + b + c,
    ensures
        s.len() == i + a.len() + b.len() + c.len(),
        s.subrange(i, i + a.len() as int) == a,
        s.subrange(i + a.len() as int, i + a.len() + b.len()) == b,
        s.subrange(i + a.len() + b.len(), s.len() as int) == c,
{
    let su = s.subrange(i, s.len() as int);
    assert(su.len() == s.len() - i);
    assert((a + b + c).len() == a.len() + b.len() + c.len());
    assert(s.subrange(i, i + a.len() as int) =~= a) by {
        assert(forall|t: int|
            0 <= t < a.len() ==> #[trigger] s.subrange(i, i + a.len() as int)[t] == s[i + t]);
        assert(forall|t: int| 0 <= t < su.len() ==> #[trigger] su[t] == s[i + t]);
    }
    assert forall|t: int|
        0 <= t < b.len() implies s.subrange(i + a.len() as int, i + a.len() + b.len())[t] == b[t] by {
        assert(s.subrange(i + a.len() as int, i + a.len() + b.len())[t] == s[i + a.len() + t]);
        assert(su[a.len() + t] == s[i + a.len() + t]);
        assert(su[a.len() + t] == (a + b + c)[a.len() + t]);
    }
    assert(s.subrange(i + a.len() as int, i + a.len() + b.len()) =~= b);
    assert forall|t: int|
        0 <= t < c.len() implies s.subrange(i + a.len() + b.len(), s.len() as int)[t] == c[t] by {
        assert(s.subrange(i + a.len() + b.len(), s.len() as int)[t] == s[i + a.len() + b.len()
            + t]);
        assert(su[a.len() + b.len() + t] == s[i + a.len() + b.len() + t]);
        assert(su[a.len() + b.len() + t] == (a + b + c)[a.len() + b.len() + t]);
    }
    assert(s.subrange(i + a.len() + b.len(), s.len() as int) =~= c);
}

proof fn lemma_jws_end_region(s: Seq<char>, i: int, w: Seq<char>)
    requires
        0 <= i,
        i + w.len() <= s.len(),
        s.subrange(i, i + w.len() as int) == w,
        forall|t: int| 0 <= t < w.len() ==> is_jws(#[trigger] w[t]),
        i + w.len() == s.len() || !is_jws(s[i + w.len()]),
    ensures
        jws_end(s, i) == i + w.len(),
{
    assert forall|k: int| i <= k < i + w.len() implies is_jws(s[k]) by {
        assert(s.subrange(i, i + w.len() as int)[k - i] == s[k]);
    }
    lemma_jws_end_known(s, i, i + w.len() as int);
}

/// Reading a serialized value back: from text that holds leading
/// whitespace, the serialized form of a well-formed value, and a
/// continuation that cannot extend a number token, the parser returns
/// exactly that value and stops where the continuation begins.
proof fn lemma_parse_ser_value(
    v: JsonV,
    ind: Seq<char>,
    s: Seq<char>,
    i: int,
    ws: Seq<char>,
    rest: Seq<char>,
)
    requires
        wf_json(v),
        forall|k: int| 0 <= k < ind.len() ==> is_jws(#[trigger] ind[k]),
        forall|k: int| 0 <= k < ws.len() ==> is_jws(#[trigger] ws[k]),
        0 <= i <= s.len(),
        s.subrange(i, s.len() as int) =~= ws + sp_ser(v, ind) + rest,
        rest.len() > 0 ==> !is_numchar(rest[0]),
    ensures
        sp_parse_value(s, i) == Some((v, s.len() - rest.len())),
    decreases v, 1int, 0int,
{
    let ser = sp_ser(v, ind);
    lemma_concat3_regions(s, i, ws, ser, rest);
    let j = i + ws.len() as int;
    let end = j + ser.len() as int;
    lemma_ser_first_char(v, ind);
    assert(s[j] == ser[0]) by {
        assert(s.subrange(j, end)[0] == s[j]);
    }
    lemma_jws_end_region(s, i, ws);
    assert(end == s.len() - rest.len());
    assert(rest.len() > 0 ==> s[end] == rest[0]) by {
        if rest.len() > 0 {
            assert(s.subrange(end, s.len() as int)[0] == s[end]);
        }
    }
    match v {
        JsonV::Null => {
            lemma_pv_atom(s, j, ser);
            assert(ser =~= seq!['n', 'u', 'l', 'l']);
        },
        JsonV::Bool(b) => {
            lemma_pv_atom(s, j, ser);
            if b {
                assert(ser =~= seq!['t', 'r', 'u', 'e']);
            } else {
                assert(ser =~= seq!['f', 'a', 'l', 's', 'e']);
            }
        },
        JsonV::Num(lex) => {
            lemma_number_chars(lex);
            assert forall|k: int| j <= k < end implies is_numchar(s[k]) by {
                assert(s.subrange(j, end)[k - j] == s[k]);
                assert(is_numchar(lex[k - j]));
            }
            lemma_numchar_end_known(s, j, end);
            assert(sp_parse_number(s, j) == Some((JsonV::Num(lex), end))) by {
                assert(s.subrange(j, end) == lex);
            }
        },
        JsonV::Str(body) => {
            assert(s[j] == '"');
            assert(s.subrange(j, s.len() as int) =~= seq!['"'] + escaped(body) + (seq!['"']
                + rest)) by {
                lemma_region_after(s, i, ws, ser, rest);
                assert(ser + rest =~= seq!['"'] + escaped(body) + (seq!['"'] + rest));
            }
            lemma_region_after(s, j, seq!['"'], escaped(body), seq!['"'] + rest);
            assert(s.subrange(j + 1, s.len() as int) =~= escaped(body) + seq!['"'] + rest) by {
                assert(escaped(body) + (seq!['"'] + rest) =~= escaped(body) + seq!['"'] + rest);
            }
            lemma_parse_string_escaped(s, j + 1, body, rest);
        },
        JsonV::Arr(a) => {
            if a.len() == 0 {
                lemma_pv_atom(s, j, ser);
                assert(ser =~= seq!['[', ']']);
                lemma_jws_end_known(s, j + 1, j + 1);
                assert(sp_parse_elems(s, j + 1) == Some((Seq::<JsonV>::empty(), j + 2)));
                assert(a =~= Seq::<JsonV>::empty());
            } else {
                lemma_pv_arr(a, ind, s, i, ws, rest);
            }
        },
        JsonV::Obj(o) => {
            if o.len() == 0 {
                lemma_pv_atom(s, j, ser);
                assert(ser =~= seq!['{', '}']);
                lemma_jws_end_known(s, j + 1, j + 1);
                assert(sp_parse_members(s, j + 1) == Some(
                    (Seq::<(Seq<char>, JsonV)>::empty(), j + 2),
                ));
                assert(o =~= Seq::<(Seq<char>, JsonV)>::empty());
            } else {
                lemma_pv_obj(o, ind, s, i, ws, rest);
            }
        },
    }
}

/// The characters of a short token region, one by one.
proof fn lemma_pv_atom(s: Seq<char>, j: int, ser: Seq<char>)
    requires
        0 <= j,
        j + ser.len() <= s.len(),
        s.subrange(j, j + ser.len() as int) == ser,
    ensures
        forall|t: int| 0 <= t < ser.len() ==> s[j + t] == #[trigger] ser[t],
{
    assert forall|t: int| 0 <= t < ser.len() implies s[j + t] == #[trigger] ser[t] by {
        assert(s.subrange(j, j + ser.len() as int)[t] == s[j + t]);
    }
}

/// The array case of [`lemma_parse_ser_value`], for a nonempty array.
#[verifier::rlimit(100)]
proof fn lemma_pv_arr(
    a: Seq<JsonV>,
    ind: Seq<char>,
    s: Seq<char>,
    i: int,
    ws: Seq<char>,
    rest: Seq<char>,
)
    requires
        wf_json(JsonV::Arr(a)),
        a.len() > 0,
        forall|k: int| 0 <= k < ind.len() ==> is_jws(#[trigger] ind[k]),
        forall|k: int| 0 <= k < ws.len() ==> is_jws(#[trigger] ws[k]),
        0 <= i <= s.len(),
        s.subrange(i, s.len() as int) =~= ws + sp_ser(JsonV::Arr(a), ind) + rest,
        rest.len() > 0 ==> !is_numchar(rest[0]),
    ensures
        sp_parse_value(s, i) == Some((JsonV::Arr(a), s.len() - rest.len())),
    decreases JsonV::Arr(a), 0int, 0int,
{
    let v = JsonV::Arr(a);
    let ser = sp_ser(v, ind);
    let ind2 = ind + seq![' ', ' '];
    assert(forall|k: int| 0 <= k < ind2.len() ==> is_jws(#[trigger] ind2[k]));
    lemma_concat3_regions(s, i, ws, ser, rest);
    let j = i + ws.len() as int;
    let end = j + ser.len() as int;
    lemma_ser_first_char(v, ind);
    assert(s[j] == ser[0]) by {
        assert(s.subrange(j, end)[0] == s[j]);
    }
    lemma_jws_end_region(s, i, ws);
    assert(s[j] == '[');
    let body = sp_ser_elems(a, 0, ind2);
    let tailc: Seq<char> = seq!['\n'] + ind + seq![']'] + rest;
    assert(s.subrange(j, s.len() as int) =~= seq!['['] + (seq!['\n'] + body + tailc)
        + Seq::<char>::empty()) by {
        lemma_region_after(s, i, ws, ser, rest);
        assert(ser + rest =~= seq!['['] + (seq!['\n'] + body + tailc) + Seq::<char>::empty());
    }
    lemma_region_after(s, j, seq!['['], seq!['\n'] + body + tailc, Seq::<char>::empty());
    assert(s.subrange(j + 1, s.len() as int) =~= seq!['\n'] + body + tailc) by {
        assert((seq!['\n'] + body + tailc) + Seq::<char>::empty() =~= seq!['\n'] + body + tailc);
    }
    lemma_parse_ser_elems(a, 0, ind, s, j + 1, rest);
    assert(a.subrange(0, a.len() as int) =~= a);
    assert(wf_json(a[0]));
    lemma_ser_first_char(a[0], ind2);
    let head = sp_ser(a[0], ind2);
    let more: Seq<char> = if a.len() > 1 {
        seq![',', '\n'] + sp_ser_elems(a, 1, ind2) + tailc
    } else {
        tailc
    };
    assert(s.subrange(j + 1, s.len() as int) =~= (seq!['\n'] + ind2) + head + more) by {
        if a.len() > 1 {
            assert(body == (ind2 + head) + seq![',', '\n'] + sp_ser_elems(a, 1, ind2));
            assert(seq!['\n'] + body + tailc =~= (seq!['\n'] + ind2) + head + (seq![',', '\n']
                + sp_ser_elems(a, 1, ind2) + tailc));
        } else {
            assert(body == ind2 + head);
            assert(seq!['\n'] + body + tailc =~= (seq!['\n'] + ind2) + head + tailc);
        }
    }
    lemma_concat3_regions(s, j + 1, seq!['\n'] + ind2, head, more);
    let jb = j + 2 + ind2.len() as int;
    assert(s[jb] == head[0]) by {
        assert(s.subrange(jb, jb + head.len() as int)[0] == s[jb]);
    }
    assert(!is_jws(s[jb]) && s[jb] != ']');
    assert(forall|t: int|
        0 <= t < (seq!['\n'] + ind2).len() ==> is_jws(#[trigger] (seq!['\n'] + ind2)[t]));
    lemma_jws_end_region(s, j + 1, seq!['\n'] + ind2);
}

/// The object case of [`lemma_parse_ser_value`], for a nonempty object.
#[verifier::rlimit(100)]
proof fn lemma_pv_obj(
    o: Seq<(Seq<char>, JsonV)>,
    ind: Seq<char>,
    s: Seq<char>,
    i: int,
    ws: Seq<char>,
    rest: Seq<char>,
)
    requires
        wf_json(JsonV::Obj(o)),
        o.len() > 0,
        forall|k: int| 0 <= k < ind.len() ==> is_jws(#[trigger] ind[k]),
        forall|k: int| 0 <= k < ws.len() ==> is_jws(#[trigger] ws[k]),
        0 <= i <= s.len(),
        s.subrange(i, s.len() as int) =~= ws + sp_ser(JsonV::Obj(o), ind) + rest,
        rest.len() > 0 ==> !is_numchar(rest[0]),
    ensures
        sp_parse_value(s, i) == Some((JsonV::Obj(o), s.len() - rest.len())),
    decreases JsonV::Obj(o), 0int, 0int,
{
    let v = JsonV::Obj(o);
    let ser = sp_ser(v, ind);
    let ind2 = ind + seq![' ', ' '];
    assert(forall|k: int| 0 <= k < ind2.len() ==> is_jws(#[trigger] ind2[k]));
    lemma_concat3_regions(s, i, ws, ser, rest);
    let j = i + ws.len() as int;
    let end = j + ser.len() as int;
    lemma_ser_first_char(v, ind);
    assert(s[j] == ser[0]) by {
        assert(s.subrange(j, end)[0] == s[j]);
    }
    lemma_jws_end_region(s, i, ws);
    assert(s[j] == '{');
    let body = sp_ser_members(o, 0, ind2);
    let tailc: Seq<char> = seq!['\n'] + ind + seq!['}'] + rest;
    assert(s.subrange(j, s.len() as int) =~= seq!['{'] + (seq!['\n'] + body + tailc)
        + Seq::<char>::empty()) by {
        lemma_region_after(s, i, ws, ser, rest);
        assert(ser + rest =~= seq!['{'] + (seq!['\n'] + body + tailc) + Seq::<char>::empty());
    }
    lemma_region_after(s, j, seq!['{'], seq!['\n'] + body + tailc, Seq::<char>::empty());
    assert(s.subrange(j + 1, s.len() as int) =~= seq!['\n'] + body + tailc) by {
        assert((seq!['\n'] + body + tailc) + Seq::<char>::empty() =~= seq!['\n'] + body + tailc);
    }
    lemma_parse_ser_members(o, 0, ind, s, j + 1, rest);
    assert(o.subrange(0, o.len() as int) =~= o);
    let keypart = seq!['"'] + escaped(o[0].0) + seq!['"', ':', ' '];
    let vser = sp_ser(o[0].1, ind2);
    let more: Seq<char> = if o.len() > 1 {
        seq![',', '\n'] + sp_ser_members(o, 1, ind2) + tailc
    } else {
        tailc
    };
    assert(s.subrange(j + 1, s.len() as int) =~= (seq!['\n'] + ind2) + (keypart + vser) + more)
        by {
        if o.len() > 1 {
            assert(body == (ind2 + seq!['"'] + escaped(o[0].0) + seq!['"', ':', ' '] + vser)
                + seq![',', '\n'] + sp_ser_members(o, 1, ind2));
            assert(seq!['\n'] + body + tailc =~= (seq!['\n'] + ind2) + (keypart + vser) + (seq![
                ',',
                '\n',
            ] + sp_ser_members(o, 1, ind2) + tailc));
        } else {
            assert(body == ind2 + seq!['"'] + escaped(o[0].0) + seq!['"', ':', ' '] + vser);
            assert(seq!['\n'] + body + tailc =~= (seq!['\n'] + ind2) + (keypart + vser) + tailc);
        }
    }
    lemma_concat3_regions(s, j + 1, seq!['\n'] + ind2, keypart + vser, more);
    let jb = j + 2 + ind2.len() as int;
    assert(s[jb] == '"') by {
        assert(s.subrange(jb, jb + (keypart + vser).len() as int)[0] == s[jb]);
    }
    assert(forall|t: int|
        0 <= t < (seq!['\n'] + ind2).len() ==> is_jws(#[trigger] (seq!['\n'] + ind2)[t]));
    lemma_jws_end_region(s, j + 1, seq!['\n'] + ind2);
}

/// Reading serialized array elements back, from the line break that
/// precedes element `idx` through the closing bracket.
#[verifier::rlimit(100)]
proof fn lemma_parse_ser_elems(
    a: Seq<JsonV>,
    idx: int,
    ind: Seq<char>,
    s: Seq<char>,
    k: int,
    rest: Seq<char>,
)
    requires
        wf_elems(a, idx),
        0 <= idx < a.len(),
        forall|t: int| 0 <= t < ind.len() ==> is_jws(#[trigger] ind[t]),
        0 <= k <= s.len(),
        s.subrange(k, s.len() as int) =~= seq!['\n'] + sp_ser_elems(a, idx, ind + seq![' ', ' '])
            + seq!['\n'] + ind + seq![']'] + rest,
    ensures
        sp_parse_elems_more(s, k) == Some(
            (a.subrange(idx, a.len() as int), s.len() - rest.len()),
        ),
    decreases a, a.len() - idx, 0int,
{
    let ind2 = ind + seq![' ', ' '];
    assert(forall|t: int| 0 <= t < ind2.len() ==> is_jws(#[trigger] ind2[t]));
    assert(wf_json(a[idx]) && wf_elems(a, idx + 1));
    let ws1 = seq!['\n'] + ind2;
    assert(forall|t: int| 0 <= t < ws1.len() ==> is_jws(#[trigger] ws1[t]));
    let head = sp_ser(a[idx], ind2);
    lemma_ser_first_char(a[idx], ind2);
    let tailc: Seq<char> = seq!['\n'] + ind + seq![']'] + rest;
    let selems = sp_ser_elems(a, idx, ind2);
    assert(s.subrange(k, s.len() as int) =~= seq!['\n'] + selems + tailc) by {
        assert(seq!['\n'] + selems + seq!['\n'] + ind + seq![']'] + rest =~= seq!['\n'] + selems
            + tailc);
    }
    if idx + 1 < a.len() {
        let rest1 = seq![',', '\n'] + sp_ser_elems(a, idx + 1, ind2) + tailc;
        assert(s.subrange(k, s.len() as int) =~= ws1 + head + rest1) by {
            assert(selems == (ind2 + head) + seq![',', '\n'] + sp_ser_elems(a, idx + 1, ind2));
            assert(seq!['\n'] + selems + tailc =~= ws1 + head + rest1);
        }
        lemma_parse_ser_value(a[idx], ind2, s, k, ws1, rest1);
        lemma_region_after(s, k, ws1, head, rest1);
        let e1 = s.len() - rest1.len();
        assert(e1 > k);
        assert(s[e1] == ',') by {
            assert(s.subrange(e1, s.len() as int)[0] == s[e1]);
        }
        lemma_jws_end_known(s, e1, e1);
        let next: Seq<char> = seq!['\n'] + sp_ser_elems(a, idx + 1, ind2) + tailc;
        assert(s.subrange(e1, s.len() as int) =~= seq![','] + next + Seq::<char>::empty()) by {
            assert(rest1 =~= seq![','] + next + Seq::<char>::empty());
        }
        lemma_region_after(s, e1, seq![','], next, Seq::<char>::empty());
        assert(s.subrange(e1 + 1, s.len() as int) =~= seq!['\n'] + sp_ser_elems(a, idx + 1, ind2)
            + seq!['\n'] + ind + seq![']'] + rest) by {
            assert(next + Seq::<char>::empty() =~= seq!['\n'] + sp_ser_elems(a, idx + 1, ind2)
                + seq!['\n'] + ind + seq![']'] + rest);
        }
        lemma_parse_ser_elems(a, idx + 1, ind, s, e1 + 1, rest);
        assert(seq![a[idx]] + a.subrange(idx + 1, a.len() as int) =~= a.subrange(
            idx,
            a.len() as int,
        ));
    } else {
        let rest1 = tailc;
        assert(s.subrange(k, s.len() as int) =~= ws1 + head + rest1) by {
            assert(selems == ind2 + head);
            assert(seq!['\n'] + selems + tailc =~= ws1 + head + rest1);
        }
        lemma_parse_ser_value(a[idx], ind2, s, k, ws1, rest1);
        lemma_region_after(s, k, ws1, head, rest1);
        let e1 = s.len() - rest1.len();
        assert(e1 > k);
        let wse = seq!['\n'] + ind;
        assert(forall|t: int| 0 <= t < wse.len() ==> is_jws(#[trigger] wse[t]));
        let jb = e1 + 1 + ind.len() as int;
        lemma_concat3_regions(s, e1, wse, seq![']'], rest);
        assert(s[jb] == ']') by {
            assert(s.subrange(jb, jb + 1)[0] == s[jb]);
        }
        lemma_jws_end_region(s, e1, wse);
        assert(seq![a[idx]] =~= a.subrange(idx, a.len() as int));
        assert(jb + 1 == s.len() - rest.len());
    }
}

/// Reading serialized object members back, from the line break that
/// precedes member `idx` through the closing brace.
#[verifier::rlimit(100)]
proof fn lemma_parse_ser_members(
    o: Seq<(Seq<char>, JsonV)>,
    idx: int,
    ind: Seq<char>,
    s: Seq<char>,
    k: int,
    rest: Seq<char>,
)
    requires
        wf_members(o, idx),
        0 <= idx < o.len(),
        forall|t: int| 0 <= t < ind.len() ==> is_jws(#[trigger] ind[t]),
        0 <= k <= s.len(),
        s.subrange(k, s.len() as int) =~= seq!['\n'] + sp_ser_members(o, idx, ind + seq![' ', ' '])
            + seq!['\n'] + ind + seq!['}'] + rest,
    ensures
        sp_parse_members_more(s, k) == Some(
            (o.subrange(idx, o.len() as int), s.len() - rest.len()),
        ),
    decreases o, o.len() - idx, 0int,
{
    let ind2 = ind + seq![' ', ' '];
    assert(forall|t: int| 0 <= t < ind2.len() ==> is_jws(#[trigger] ind2[t]));
    assert(wf_json(o[idx].1) && wf_members(o, idx + 1));
    let key = o[idx].0;
    let val = o[idx].1;
    let ws1 = seq!['\n'] + ind2;
    assert(forall|t: int| 0 <= t < ws1.len() ==> is_jws(#[trigger] ws1[t]));
    let vser = sp_ser(val, ind2);
    lemma_ser_first_char(val, ind2);
    let keypart = seq!['"'] + escaped(key) + seq!['"', ':', ' '];
    let tailc: Seq<char> = seq!['\n'] + ind + seq!['}'] + rest;
    let smem = sp_ser_members(o, idx, ind2);
    let mid: Seq<char> = if idx + 1 < o.len() {
        seq![',', '\n'] + sp_ser_members(o, idx + 1, ind2) + tailc
    } else {
        tailc
    };
    assert(s.subrange(k, s.len() as int) =~= ws1 + (keypart + vser) + mid) by {
        if idx + 1 < o.len() {
            assert(smem == (ind2 + seq!['"'] + escaped(key) + seq!['"', ':', ' '] + vser) + seq![
                ',',
                '\n',
            ] + sp_ser_members(o, idx + 1, ind2));
        } else {
            assert(smem == ind2 + seq!['"'] + escaped(key) + seq!['"', ':', ' '] + vser);
        }
        assert(seq!['\n'] + smem + seq!['\n'] + ind + seq!['}'] + rest =~= ws1 + (keypart + vser)
            + mid);
    }
    lemma_concat3_regions(s, k, ws1, keypart + vser, mid);
    let jq = k + 1 + ind2.len() as int;
    assert(s[jq] == '"') by {
        assert(s.subrange(jq, jq + (keypart + vser).len() as int)[0] == s[jq]);
    }
    lemma_jws_end_region(s, k, ws1);
    let rest4 = seq![':', ' '] + vser + mid;
    assert(s.subrange(jq, s.len() as int) =~= seq!['"'] + escaped(key) + (seq!['"'] + rest4)) by {
        lemma_region_after(s, k, ws1, keypart + vser, mid);
        assert((keypart + vser) + mid =~= seq!['"'] + escaped(key) + (seq!['"'] + rest4));
    }
    lemma_region_after(s, jq, seq!['"'], escaped(key), seq!['"'] + rest4);
    assert(s.subrange(jq + 1, s.len() as int) =~= escaped(key) + seq!['"'] + rest4) by {
        assert(escaped(key) + (seq!['"'] + rest4) =~= escaped(key) + seq!['"'] + rest4);
    }
    lemma_parse_string_escaped(s, jq + 1, key, rest4);
    let i2 = s.len() - rest4.len();
    assert(i2 > k);
    let qe = jq + 1 + escaped(key).len() as int;
    assert(s.subrange(qe, s.len() as int) == seq!['"'] + rest4);
    assert(i2 == qe + 1);
    assert(s.subrange(qe, s.len() as int) =~= seq!['"'] + rest4 + Seq::<char>::empty()) by {
        assert(seq!['"'] + rest4 =~= seq!['"'] + rest4 + Seq::<char>::empty());
    }
    lemma_region_after(s, qe, seq!['"'], rest4, Seq::<char>::empty());
    assert(s.subrange(i2, s.len() as int) =~= rest4) by {
        assert(rest4 + Seq::<char>::empty() =~= rest4);
    }
    assert(s[i2] == ':') by {
        assert(s.subrange(i2, s.len() as int)[0] == s[i2]);
    }
    lemma_jws_end_known(s, i2, i2);
    assert(s.subrange(i2, s.len() as int) =~= seq![':'] + (seq![' '] + vser + mid)
        + Seq::<char>::empty()) by {
        assert(rest4 =~= seq![':'] + (seq![' '] + vser + mid) + Seq::<char>::empty());
    }
    lemma_region_after(s, i2, seq![':'], seq![' '] + vser + mid, Seq::<char>::empty());
    assert(s.subrange(i2 + 1, s.len() as int) =~= seq![' '] + vser + mid) by {
        assert((seq![' '] + vser + mid) + Seq::<char>::empty() =~= seq![' '] + vser + mid);
    }
    assert(mid.len() > 0 && !is_numchar(mid[0]));
    lemma_parse_ser_value(val, ind2, s, i2 + 1, seq![' '], mid);
    let e = s.len() - mid.len();
    assert(e > i2);
    lemma_region_after(s, i2 + 1, seq![' '], vser, mid);
    assert(s.subrange(e, s.len() as int) == mid);
    if idx + 1 < o.len() {
        assert(s[e] == ',') by {
            assert(s.subrange(e, s.len() as int)[0] == s[e]);
        }
        lemma_jws_end_known(s, e, e);
        let next: Seq<char> = seq!['\n'] + sp_ser_members(o, idx + 1, ind2) + tailc;
        assert(s.subrange(e, s.len() as int) =~= seq![','] + next + Seq::<char>::empty()) by {
            assert(mid =~= seq![','] + next + Seq::<char>::empty());
        }
        lemma_region_after(s, e, seq![','], next, Seq::<char>::empty());
        assert(s.subrange(e + 1, s.len() as int) =~= seq!['\n'] + sp_ser_members(o, idx + 1, ind2)
            + seq!['\n'] + ind + seq!['}'] + rest) by {
            assert(next + Seq::<char>::empty() =~= seq!['\n'] + sp_ser_members(o, idx + 1, ind2)
                + seq!['\n'] + ind + seq!['}'] + rest);
        }
        lemma_parse_ser_members(o, idx + 1, ind, s, e + 1, rest);
        assert(seq![(key, val)] + o.subrange(idx + 1, o.len() as int) =~= o.subrange(
            idx,
            o.len() as int,
        ));
    } else {
        let wse = seq!['\n'] + ind;
        assert(forall|t: int| 0 <= t < wse.len() ==> is_jws(#[trigger] wse[t]));
        let jb = e + 1 + ind.len() as int;
        lemma_concat3_regions(s, e, wse, seq!['}'], rest);
        assert(s[jb] == '}') by {
            assert(s.subrange(jb, jb + 1)[0] == s[jb]);
        }
        lemma_jws_end_region(s, e, wse);
        assert(seq![(key, val)] =~= o.subrange(idx, o.len() as int));
        assert(jb + 1 == s.len() - rest.len());
    }
}

proof fn lemma_wf_elems_cons(v: JsonV, rest: Seq<JsonV>, i: int)
    requires
        0 <= i <= rest.len(),
    ensures
        wf_elems(seq![v] + rest, i + 1) == wf_elems(rest, i),
    decreases rest.len() - i,
{
    if i < rest.len() {
        lemma_wf_elems_cons(v, rest, i + 1);
        assert((seq![v] + rest)[i + 1] == rest[i]);
    }
}

/// Well-formedness of members after putting one member in front.
pub proof fn lemma_wf_members_cons(p: (Seq<char>, JsonV), rest: Seq<(Seq<char>, JsonV)>, i: int)
    requires
        0 <= i <= rest.len(),
    ensures
        wf_members(seq![p] + rest, i + 1) == wf_members(rest, i),
    decreases rest.len() - i,
{
    if i < rest.len() {
        lemma_wf_members_cons(p, rest, i + 1);
        assert((seq![p] + rest)[i + 1] == rest[i]);
    }
}

proof fn lemma_parse_string_bounds(s: Seq<char>, p: int)
    requires
        0 <= p <= s.len(),
    ensures
        sp_parse_string(s, p) matches Some((cs, j)) ==> p < j <= s.len(),
    decreases s.len() - p,
{
    if p < s.len() && s[p] != '"' {
        if s[p] == '\\' {
            if p + 1 < s.len() {
                if s[p + 1] == 'u' {
                    if p + 6 <= s.len() {
                        lemma_parse_string_bounds(s, p + 6);
                    }
                } else {
                    lemma_parse_string_bounds(s, p + 2);
                }
            }
        } else {
            lemma_parse_string_bounds(s, p + 1);
        }
    }
}

/// Every value the parser returns is well formed.
pub proof fn lemma_parse_value_wf(s: Seq<char>, i: int)
    requires
        0 <= i <= s.len(),
    ensures
        sp_parse_value(s, i) matches Some((v, j)) ==> wf_json(v) && i <= j <= s.len(),
    decreases s.len() - i, 0int,
{
    lemma_jws_end(s, i);
    let j = jws_end(s, i);
    if i <= j < s.len() {
        let c = s[j];
        if c == '[' {
            lemma_parse_elems_wf(s, j + 1);
        } else if c == '{' {
            lemma_parse_members_wf(s, j + 1);
        } else if c == '"' {
            lemma_parse_string_bounds(s, j + 1);
        } else if c == '-' || is_digit(c) {
            lemma_numchar_end(s, j);
        }
    }
}

proof fn lemma_parse_elems_wf(s: Seq<char>, k: int)
    requires
        0 <= k <= s.len(),
    ensures
        sp_parse_elems(s, k) matches Some((vs, j)) ==> wf_elems(vs, 0) && k <= j <= s.len(),
    decreases s.len() - k, 2int,
{
    lemma_jws_end(s, k);
    let j = jws_end(s, k);
    if k <= j < s.len() {
        if s[j] != ']' {
            lemma_parse_elems_more_wf(s, k);
        }
    }
}

proof fn lemma_parse_elems_more_wf(s: Seq<char>, k: int)
    requires
        0 <= k <= s.len(),
    ensures
        sp_parse_elems_more(s, k) matches Some((vs, j)) ==> wf_elems(vs, 0) && k <= j <= s.len(),
    decreases s.len() - k, 1int,
{
    lemma_parse_value_wf(s, k);
    match sp_parse_value(s, k) {
        Some((v, i2)) => {
            if k < i2 <= s.len() {
                lemma_jws_end(s, i2);
                let j2 = jws_end(s, i2);
                if i2 <= j2 < s.len() {
                    if s[j2] == ',' {
                        lemma_parse_elems_more_wf(s, j2 + 1);
                        match sp_parse_elems_more(s, j2 + 1) {
                            Some((rest, j3)) => {
                                assert((seq![v] + rest)[0] == v);
                                lemma_wf_elems_cons(v, rest, 0);
                            },
                            None => {},
                        }
                    } else if s[j2] == ']' {
                        assert((seq![v])[0] == v);
                        assert(seq![v].drop_first() =~= Seq::<JsonV>::empty());
                        lemma_wf_elems_cons(v, Seq::empty(), 0);
                        assert(seq![v] + Seq::<JsonV>::empty() =~= seq![v]);
                    }
                }
            }
        },
        None => {},
    }
}

proof fn lemma_parse_members_wf(s: Seq<char>, k: int)
    requires
        0 <= k <= s.len(),
    ensures
        sp_parse_members(s, k) matches Some((ms, j)) ==> wf_members(ms, 0) && k <= j <= s.len(),
    decreases s.len() - k, 2int,
{
    lemma_jws_end(s, k);
    let j = jws_end(s, k);
    if k <= j < s.len() {
        if s[j] != '}' {
            lemma_parse_members_more_wf(s, k);
        }
    }
}

proof fn lemma_parse_members_more_wf(s: Seq<char>, k: int)
    requires
        0 <= k <= s.len(),
    ensures
        sp_parse_members_more(s, k) matches Some((ms, j)) ==> wf_members(ms, 0) && k <= j
            <= s.len(),
    decreases s.len() - k, 1int,
{
    lemma_jws_end(s, k);
    let j = jws_end(s, k);
    if k <= j < s.len() && s[j] == '"' {
        lemma_parse_string_bounds(s, j + 1);
        match sp_parse_string(s, j + 1) {
            Some((key, i2)) => {
                if k < i2 <= s.len() {
                    lemma_jws_end(s, i2);
                    let j2 = jws_end(s, i2);
                    if i2 <= j2 < s.len() && s[j2] == ':' {
                        lemma_parse_value_wf(s, j2 + 1);
                        match sp_parse_value(s, j2 + 1) {
                            Some((v, i3)) => {
                                if j2 < i3 <= s.len() {
                                    lemma_jws_end(s, i3);
                                    let j3 = jws_end(s, i3);
                                    if i3 <= j3 < s.len() {
                                        if s[j3] == ',' {
                                            lemma_parse_members_more_wf(s, j3 + 1);
                                            match sp_parse_members_more(s, j3 + 1) {
                                                Some((rest, j4)) => {
                                                    assert((seq![(key, v)] + rest)[0] == (
                                                    key,
                                                    v,
                                                    ));
                                                    lemma_wf_members_cons((key, v), rest, 0);
                                                },
                                                None => {},
                                            }
                                        } else if s[j3] == '}' {
                                            assert((seq![(key, v)])[0] == (key, v));
                                            lemma_wf_members_cons(
                                                (key, v),
                                                Seq::empty(),
                                                0,
                                            );
                                            assert(seq![(key, v)]
                                                + Seq::<(Seq<char>, JsonV)>::empty() =~= seq![
                                                (key, v),
                                            ]);
                                        }
                                    }
                                }
                            },
                            None => {},
                        }
                    }
                }
            },
            None => {},
        }
    }
}

/// Every document the parser returns is well formed, so it can be
/// serialized and read back.
pub proof fn lemma_parse_doc_wf(s: Seq<char>)
    ensures
        sp_parse_doc(s) matches Some(v) ==> wf_json(v),
{
    lemma_parse_value_wf(s, 0);
}

/// The round trip: parsing the serialized form of a well-formed
/// document yields exactly that document.
pub proof fn lemma_parse_serialize(v: JsonV)
    requires
        wf_json(v),
    ensures
        sp_parse_doc(sp_serialize(v)) == Some(v),
{
    let s = sp_serialize(v);
    assert(s.subrange(0, s.len() as int) =~= Seq::<char>::empty() + sp_ser(v, Seq::empty())
        + Seq::<char>::empty());
    lemma_parse_ser_value(
        v,
        Seq::empty(),
        s,
        0,
        Seq::empty(),
        Seq::empty(),
    );
    lemma_jws_end_known(s, s.len() as int, s.len() as int);
}

/// The value of the first member with the given key.
pub open spec fn sp_obj_lookup(m: Seq<(Seq<char>, JsonV)>, key: Seq<char>) -> Option<JsonV>
    decreases m.len(),
{
    if m.len() == 0 {
        None
    } else if m[0].0 == key {
        Some(m[0].1)
    } else {
        sp_obj_lookup(m.drop_first(), key)
    }
}

/// The string held by a looked-up member; empty when the member is
/// absent or not a string.
pub open spec fn sp_str_of(o: Option<JsonV>) -> Seq<char> {
    match o {
        Some(JsonV::Str(s)) => s,
        _ => Seq::empty(),
    }
}

/// The string field `key` of a document: empty when the document is not
/// an object, the member is absent, or it is not a string.
pub open spec fn sp_get_str(v: JsonV, key: Seq<char>) -> Seq<char> {
    match v {
        JsonV::Obj(m) => sp_str_of(sp_obj_lookup(m, key)),
        _ => Seq::empty(),
    }
}

/// Members with the first `key` member replaced in place by a string
/// value; when no member has the key, one is appended.
pub open spec fn sp_obj_set(m: Seq<(Seq<char>, JsonV)>, key: Seq<char>, val: Seq<char>) -> Seq<
    (Seq<char>, JsonV),
>
    decreases m.len(),
{
    if m.len() == 0 {
        seq![(key, JsonV::Str(val))]
    } else if m[0].0 == key {
        seq![(key, JsonV::Str(val))] + m.drop_first()
    } else {
        seq![m[0]] + sp_obj_set(m.drop_first(), key, val)
    }
}

/// A document with the string field `key` set; anything but an object is
/// left as it is.
pub open spec fn sp_set_str(v: JsonV, key: Seq<char>, val: Seq<char>) -> JsonV {
    match v {
        JsonV::Obj(m) => JsonV::Obj(sp_obj_set(m, key, val)),
        _ => v,
    }
}

proof fn lemma_obj_lookup_skip(m: Seq<(Seq<char>, JsonV)>, key: Seq<char>, i: int)
    requires
        0 <= i <= m.len(),
        forall|k: int| 0 <= k < i ==> m[k].0 != key,
    ensures
        sp_obj_lookup(m, key) == sp_obj_lookup(m.skip(i), key),
    decreases i,
{
    if i > 0 {
        lemma_obj_lookup_skip(m, key, i - 1);
        assert(m.skip(i - 1).drop_first() =~= m.skip(i));
        assert(m.skip(i - 1)[0] == m[i - 1]);
    } else {
        assert(m.skip(0) =~= m);
    }
}

proof fn lemma_obj_set_found(m: Seq<(Seq<char>, JsonV)>, key: Seq<char>, val: Seq<char>, i: int)
    requires
        0 <= i < m.len(),
        forall|k: int| 0 <= k < i ==> m[k].0 != key,
        m[i].0 == key,
    ensures
        sp_obj_set(m, key, val) =~= m.update(i, (key, JsonV::Str(val))),
    decreases i,
{
    if i == 0 {
        assert(sp_obj_set(m, key, val) =~= m.update(0, (key, JsonV::Str(val))));
    } else {
        lemma_obj_set_found(m.drop_first(), key, val, i - 1);
        assert(m.drop_first().update(i - 1, (key, JsonV::Str(val))) =~= m.update(
            i,
            (key, JsonV::Str(val)),
        ).drop_first());
        assert(sp_obj_set(m, key, val) =~= seq![m[0]] + sp_obj_set(m.drop_first(), key, val));
        assert(sp_obj_set(m, key, val) =~= m.update(i, (key, JsonV::Str(val))));
    }
}

proof fn lemma_obj_set_absent(m: Seq<(Seq<char>, JsonV)>, key: Seq<char>, val: Seq<char>)
    requires
        forall|k: int| 0 <= k < m.len() ==> m[k].0 != key,
    ensures
        sp_obj_set(m, key, val) =~= m + seq![(key, JsonV::Str(val))],
    decreases m.len(),
{
    if m.len() > 0 {
        lemma_obj_set_absent(m.drop_first(), key, val);
        assert(sp_obj_set(m, key, val) =~= m + seq![(key, JsonV::Str(val))]);
    }
}

/// The string field `key` of a document.
pub fn get_str_field(j: &Json, key: &Vec<char>) -> (r: Vec<char>)
    ensures
        r@ == sp_get_str(jv(*j), key@),
{
    match j {
        Json::Obj(o) => {
            proof {
                lemma_jv_unfold(*j);
                assert(jv(*j) matches JsonV::Obj(m) && m == jvm(o@));
                assert(sp_get_str(jv(*j), key@) == sp_str_of(sp_obj_lookup(jvm(o@), key@)));
            }
            let n = o.len();
            let mut i: usize = 0;
            while i < n
                invariant
                    i <= n,
                    n == o@.len(),
                    sp_get_str(jv(*j), key@) == sp_str_of(sp_obj_lookup(jvm(o@), key@)),
                    forall|k: int| 0 <= k < i ==> jvm(o@)[k].0 != key@,
                decreases n - i,
            {
                if chars_eq(&o[i].0, key) {
                    proof {
                        assert(jvm(o@)[i as int] == (o@[i as int].0@, jv(o@[i as int].1)));
                        lemma_obj_lookup_skip(jvm(o@), key@, i as int);
                        assert(jvm(o@).skip(i as int)[0] == jvm(o@)[i as int]);
                        assert(sp_obj_lookup(jvm(o@), key@) == Some(jv(o@[i as int].1)));
                    }
                    match &o[i].1 {
                        Json::Str(s) => {
                            proof {
                                lemma_jv_unfold(o@[i as int].1);
                                assert(jv(o@[i as int].1) == JsonV::Str(s@));
                            }
                            return clone_chars(s);
                        },
                        _ => {
                            proof {
                                lemma_jv_unfold(o@[i as int].1);
                            }
                            let r: Vec<char> = Vec::new();
                            assert(r@ =~= sp_get_str(jv(*j), key@));
                            return r;
                        },
                    }
                }
                i += 1;
            }
            proof {
                lemma_obj_lookup_skip(jvm(o@), key@, n as int);
                assert(jvm(o@).skip(n as int) =~= Seq::<(Seq<char>, JsonV)>::empty());
            }
            let r: Vec<char> = Vec::new();
            assert(r@ =~= sp_get_str(jv(*j), key@));
            r
        },
        _ => {
            let r: Vec<char> = Vec::new();
            assert(r@ =~= sp_get_str(jv(*j), key@));
            r
        },
    }
}

/// The document with its string field `key` set to `val`: the first
/// member with that key is replaced where it stands, one is appended
/// when none is there, and a document that is not an object is returned
/// unchanged.
pub fn with_str_field(j: Json, key: &Vec<char>, val: &Vec<char>) -> (r: Json)
    ensures
        jv(r) == sp_set_str(jv(j), key@, val@),
{
    match j {
        Json::Obj(mut o) => {
            proof {
                lemma_jv_unfold(Json::Obj(o));
            }
            let ghost m0 = jvm(o@);
            proof {
                assert(sp_set_str(jv(j), key@, val@) == JsonV::Obj(sp_obj_set(m0, key@, val@)));
            }
            let n = o.len();
            let mut i: usize = 0;
            while i < n
                invariant
                    i <= n,
                    n == o@.len(),
                    m0 == jvm(o@),
                    sp_set_str(jv(j), key@, val@) == JsonV::Obj(sp_obj_set(m0, key@, val@)),
                    forall|k: int| 0 <= k < i ==> jvm(o@)[k].0 != key@,
                decreases n - i,
            {
                if chars_eq(&o[i].0, key) {
                    proof {
                        assert(jvm(o@)[i as int] == (o@[i as int].0@, jv(o@[i as int].1)));
                        lemma_obj_set_found(jvm(o@), key@, val@, i as int);
                    }
                    let newpair = (clone_chars(key), Json::Str(clone_chars(val)));
                    let ghost gp = newpair;
                    let ghost before = o@;
                    o.remove(i);
                    o.insert(i, newpair);
                    proof {
                        assert(o@ =~= before.update(i as int, gp));
                        assert(jv(gp.1) == JsonV::Str(val@));
                        assert(jvm(o@) =~= jvm(before).update(i as int, (key@, JsonV::Str(val@))));
                        assert(jvm(o@) =~= sp_obj_set(m0, key@, val@));
                        lemma_jv_unfold(Json::Obj(o));
                    }
                    return Json::Obj(o);
                }
                i += 1;
            }
            proof {
                lemma_obj_set_absent(jvm(o@), key@, val@);
            }
            o.push((clone_chars(key), Json::Str(clone_chars(val))));
            proof {
                assert(jvm(o@) =~= sp_obj_set(m0, key@, val@));
                lemma_jv_unfold(Json::Obj(o));
            }
            Json::Obj(o)
        },
        other => other,
    }
}

/// A structurally equal copy of a document.
pub fn clone_json(j: &Json) -> (r: Json)
    ensures
        jv(r) == jv(*j),
    decreases *j, 0int,
{
    match j {
        Json::Null => Json::Null,
        Json::Bool(b) => Json::Bool(*b),
        Json::Num(s) => Json::Num(clone_chars(s)),
        Json::Str(s) => Json::Str(clone_chars(s)),
        Json::Arr(a) => {
            let acc = clone_list(a, 0);
            proof {
                assert(jvs(acc@) =~= jvs(a@));
                lemma_jv_unfold(Json::Arr(acc));
                lemma_jv_unfold(*j);
            }
            Json::Arr(acc)
        },
        Json::Obj(o) => {
            let acc = clone_pairs(o, 0);
            proof {
                assert(jvm(acc@) =~= jvm(o@));
                lemma_jv_unfold(Json::Obj(acc));
                lemma_jv_unfold(*j);
            }
            Json::Obj(acc)
        },
    }
}

/// Copies of the elements of `a` from index `i` on.
fn clone_list(a: &Vec<Json>, i: usize) -> (r: Vec<Json>)
    requires
        i <= a@.len(),
    ensures
        jvs(r@) =~= jvs(a@).subrange(i as int, a@.len() as int),
    decreases *a, a@.len() - i,
{
    if i == a.len() {
        let r: Vec<Json> = Vec::new();
        assert(jvs(r@) =~= jvs(a@).subrange(i as int, a@.len() as int));
        r
    } else {
        let c = clone_json(&a[i]);
        let mut rest = clone_list(a, i + 1);
        let ghost old_rest = rest@;
        let ghost gc = c;
        rest.insert(0, c);
        assert(jvs(rest@) =~= seq![jv(gc)] + jvs(old_rest));
        assert(jvs(rest@) =~= jvs(a@).subrange(i as int, a@.len() as int));
        rest
    }
}

/// Copies of the members of `o` from index `i` on.
fn clone_pairs(o: &Vec<(Vec<char>, Json)>, i: usize) -> (r: Vec<(Vec<char>, Json)>)
    requires
        i <= o@.len(),
    ensures
        jvm(r@) =~= jvm(o@).subrange(i as int, o@.len() as int),
    decreases *o, o@.len() - i,
{
    if i == o.len() {
        let r: Vec<(Vec<char>, Json)> = Vec::new();
        assert(jvm(r@) =~= jvm(o@).subrange(i as int, o@.len() as int));
        r
    } else {
        let k = clone_chars(&o[i].0);
        let c = clone_json(&o[i].1);
        let mut rest = clone_pairs(o, i + 1);
        let ghost old_rest = rest@;
        let ghost gk = k@;
        let ghost gc = c;
        rest.insert(0, (k, c));
        assert(jvm(rest@) =~= seq![(gk, jv(gc))] + jvm(old_rest));
        assert(jvm(rest@) =~= jvm(o@).subrange(i as int, o@.len() as int));
        rest
    }
}

/// Parse a whole document; `None` when the text is not well-formed or
/// trailing content follows the value.
pub fn parse_document(s: &Vec<char>) -> (r: Option<Json>)
    ensures
        match (r, sp_parse_doc(s@)) {
            (Some(v), Some(sv)) => jv(v) == sv,
            (None, None) => true,
            _ => false,
        },
{
    match parse_value(s, 0) {
        Some((v, i)) => {
            let e = skip_jws(s, i);
            if e == s.len() {
                Some(v)
            } else {
                None
            }
        },
        None => None,
    }
}

} // verus!
