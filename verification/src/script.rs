//! Script-file codec: extracts and replaces two assignment-style fields
//! in free-form script text by pattern matching, leaving every other
//! character untouched.  The identifier pattern is the field name,
//! optional whitespace, `=`, optional whitespace, and a quoted value
//! (double or single quotes); the list pattern has a bracketed,
//! comma-separated body instead of the quoted value.

use vstd::prelude::*;

use crate::text::{
    chars_eq, chars_of, clone_chars, copy_range, is_ws, push_chars, string_from_chars, str_views,
    vec_views,
};

verus! {

/// The identifier field name.
pub open spec fn id_lit() -> Seq<char> {
    seq!['a', 'p', 'p', 'I', 'd']
}

/// The platform-ID list field name.
pub open spec fn ids_lit() -> Seq<char> {
    seq!['d', 'o', 'u', 'y', 'i', 'n', 'I', 'd', 's']
}

/// A quote character of either style.
pub open spec fn is_quote(c: char) -> bool {
    c == '"' || c == '\''
}

fn is_quote_exec(c: char) -> (r: bool)
    ensures
        r == is_quote(c),
{
    c == '"' || c == '\''
}

/// The first position at or after `i` that does not hold whitespace.
pub open spec fn ws_end(s: Seq<char>, i: int) -> int
    decreases s.len() - i,
{
    if 0 <= i < s.len() && is_ws(s[i]) {
        ws_end(s, i + 1)
    } else {
        i
    }
}

/// The first position at or after `i` holding a quote, or the length.
pub open spec fn quote_end(s: Seq<char>, i: int) -> int
    decreases s.len() - i,
{
    if 0 <= i < s.len() && !is_quote(s[i]) {
        quote_end(s, i + 1)
    } else {
        i
    }
}

/// The first position at or after `i` holding `]`, or the length.
pub open spec fn bracket_end(s: Seq<char>, i: int) -> int
    decreases s.len() - i,
{
    if 0 <= i < s.len() && s[i] != ']' {
        bracket_end(s, i + 1)
    } else {
        i
    }
}

pub proof fn lemma_ws_end(s: Seq<char>, i: int)
    requires
        0 <= i <= s.len(),
    ensures
        i <= ws_end(s, i) <= s.len(),
    decreases s.len() - i,
{
    if i < s.len() && is_ws(s[i]) {
        lemma_ws_end(s, i + 1);
    }
}

pub proof fn lemma_quote_end(s: Seq<char>, i: int)
    requires
        0 <= i <= s.len(),
    ensures
        i <= quote_end(s, i) <= s.len(),
        forall|k: int| i <= k < quote_end(s, i) ==> !is_quote(s[k]),
        quote_end(s, i) < s.len() ==> is_quote(s[quote_end(s, i)]),
    decreases s.len() - i,
{
    if i < s.len() && !is_quote(s[i]) {
        lemma_quote_end(s, i + 1);
    }
}

pub proof fn lemma_bracket_end(s: Seq<char>, i: int)
    requires
        0 <= i <= s.len(),
    ensures
        i <= bracket_end(s, i) <= s.len(),
        forall|k: int| i <= k < bracket_end(s, i) ==> s[k] != ']',
        bracket_end(s, i) < s.len() ==> s[bracket_end(s, i)] == ']',
    decreases s.len() - i,
{
    if i < s.len() && s[i] != ']' {
        lemma_bracket_end(s, i + 1);
    }
}

fn ws_end_exec(s: &Vec<char>, i: usize) -> (r: usize)
    requires
        i <= s@.len(),
    ensures
        r == ws_end(s@, i as int),
        i <= r <= s@.len(),
{
    let n = s.len();
    let mut k = i;
    while k < n && crate::text::ws_char(s[k])
        invariant
            i <= k <= n,
            n == s@.len(),
            ws_end(s@, i as int) == ws_end(s@, k as int),
        decreases n - k,
    {
        k += 1;
    }
    k
}

fn quote_end_exec(s: &Vec<char>, i: usize) -> (r: usize)
    requires
        i <= s@.len(),
    ensures
        r == quote_end(s@, i as int),
        i <= r <= s@.len(),
{
    let n = s.len();
    let mut k = i;
    while k < n && !is_quote_exec(s[k])
        invariant
            i <= k <= n,
            n == s@.len(),
            quote_end(s@, i as int) == quote_end(s@, k as int),
        decreases n - k,
    {
        k += 1;
    }
    k
}

fn bracket_end_exec(s: &Vec<char>, i: usize) -> (r: usize)
    requires
        i <= s@.len(),
    ensures
        r == bracket_end(s@, i as int),
        i <= r <= s@.len(),
{
    let n = s.len();
    let mut k = i;
    while k < n && s[k] != ']'
        invariant
            i <= k <= n,
            n == s@.len(),
            bracket_end(s@, i as int) == bracket_end(s@, k as int),
        decreases n - k,
    {
        k += 1;
    }
    k
}

/// `lit` occurs at position `i` of `s`.
pub open spec fn lit_at(s: Seq<char>, i: int, lit: Seq<char>) -> bool {
    0 <= i && i + lit.len() <= s.len() && s.subrange(i, i + lit.len() as int) == lit
}

pub(crate) fn lit_at_exec(s: &Vec<char>, i: usize, lit: &Vec<char>) -> (r: bool)
    requires
        i <= s@.len(),
    ensures
        r == lit_at(s@, i as int, lit@),
{
    let n = s.len();
    let m = lit.len();
    if n - i < m {
        assert(!lit_at(s@, i as int, lit@));
        return false;
    }
    let mut k: usize = 0;
    while k < m
        invariant
            k <= m,
            m == lit@.len(),
            n == s@.len(),
            i + m <= n,
            forall|t: int| 0 <= t < k ==> s@[i + t] == lit@[t],
        decreases m - k,
    {
        if s[i + k] != lit[k] {
            proof {
                assert(s@.subrange(i as int, i as int + m) [k as int] == s@[i + k]);
                assert(s@.subrange(i as int, i as int + m) != lit@);
            }
            return false;
        }
        k += 1;
    }
    proof {
        assert(s@.subrange(i as int, i as int + m) =~= lit@);
    }
    true
}

/// The identifier field name as characters.
pub fn id_lit_chars() -> (r: Vec<char>)
    ensures
        r@ == id_lit(),
{
    let mut v: Vec<char> = Vec::new();
    v.push('a');
    v.push('p');
    v.push('p');
    v.push('I');
    v.push('d');
    assert(v@ =~= id_lit());
    v
}

/// The list field name as characters.
pub fn ids_lit_chars() -> (r: Vec<char>)
    ensures
        r@ == ids_lit(),
{
    let mut v: Vec<char> = Vec::new();
    v.push('d');
    v.push('o');
    v.push('u');
    v.push('y');
    v.push('i');
    v.push('n');
    v.push('I');
    v.push('d');
    v.push('s');
    assert(v@ =~= ids_lit());
    v
}

/// An identifier assignment starting at `i`: the field name, optional
/// whitespace, `=`, optional whitespace, an opening quote, a run of
/// unquoted value characters, and a closing quote.  On a match, the
/// positions of the opening and closing quotes; the value sits between
/// them.
pub open spec fn id_match_at(s: Seq<char>, i: int) -> Option<(int, int)> {
    if lit_at(s, i, id_lit()) {
        let j1 = ws_end(s, i + id_lit().len());
        if j1 < s.len() && s[j1] == '=' {
            let j2 = ws_end(s, j1 + 1);
            if j2 < s.len() && is_quote(s[j2]) {
                let ve = quote_end(s, j2 + 1);
                if ve < s.len() {
                    Some((j2, ve))
                } else {
                    None
                }
            } else {
                None
            }
        } else {
            None
        }
    } else {
        None
    }
}

/// A list assignment starting at `i`: the field name, optional
/// whitespace, `=`, optional whitespace, `[`, a run of characters other
/// than `]`, and `]`.  On a match, the positions of the two brackets;
/// the body sits between them.
pub open spec fn ids_match_at(s: Seq<char>, i: int) -> Option<(int, int)> {
    if lit_at(s, i, ids_lit()) {
        let j1 = ws_end(s, i + ids_lit().len());
        if j1 < s.len() && s[j1] == '=' {
            let j2 = ws_end(s, j1 + 1);
            if j2 < s.len() && s[j2] == '[' {
                let rb = bracket_end(s, j2 + 1);
                if rb < s.len() {
                    Some((j2, rb))
                } else {
                    None
                }
            } else {
                None
            }
        } else {
            None
        }
    } else {
        None
    }
}

/// The first identifier assignment at or after position `i`.
pub open spec fn find_id(s: Seq<char>, i: int) -> Option<(int, int)>
    decreases s.len() - i,
{
    if i < 0 || i >= s.len() {
        None
    } else {
        match id_match_at(s, i) {
            Some(m) => Some(m),
            None => find_id(s, i + 1),
        }
    }
}

/// The first list assignment at or after position `i`.
pub open spec fn find_ids(s: Seq<char>, i: int) -> Option<(int, int)>
    decreases s.len() - i,
{
    if i < 0 || i >= s.len() {
        None
    } else {
        match ids_match_at(s, i) {
            Some(m) => Some(m),
            None => find_ids(s, i + 1),
        }
    }
}

pub proof fn lemma_id_match_bounds(s: Seq<char>, i: int)
    requires
        0 <= i <= s.len(),
    ensures
        id_match_at(s, i) matches Some((q, ve)) ==> i <= q < ve < s.len() && is_quote(s[q])
            && is_quote(s[ve]),
{
    if id_match_at(s, i) is Some {
        lemma_ws_end(s, i + id_lit().len());
        let j1 = ws_end(s, i + id_lit().len());
        lemma_ws_end(s, j1 + 1);
        let j2 = ws_end(s, j1 + 1);
        lemma_quote_end(s, j2 + 1);
    }
}

pub proof fn lemma_ids_match_bounds(s: Seq<char>, i: int)
    requires
        0 <= i <= s.len(),
    ensures
        ids_match_at(s, i) matches Some((lb, rb)) ==> i <= lb < rb < s.len() && s[lb] == '['
            && s[rb] == ']',
{
    if ids_match_at(s, i) is Some {
        lemma_ws_end(s, i + ids_lit().len());
        let j1 = ws_end(s, i + ids_lit().len());
        lemma_ws_end(s, j1 + 1);
        let j2 = ws_end(s, j1 + 1);
        lemma_bracket_end(s, j2 + 1);
    }
}

pub proof fn lemma_find_id_bounds(s: Seq<char>, i: int)
    requires
        0 <= i <= s.len(),
    ensures
        find_id(s, i) matches Some((q, ve)) ==> i <= q < ve < s.len() && is_quote(s[q])
            && is_quote(s[ve]),
    decreases s.len() - i,
{
    if i < s.len() {
        lemma_id_match_bounds(s, i);
        lemma_find_id_bounds(s, i + 1);
    }
}

pub proof fn lemma_find_ids_bounds(s: Seq<char>, i: int)
    requires
        0 <= i <= s.len(),
    ensures
        find_ids(s, i) matches Some((lb, rb)) ==> i <= lb < rb < s.len() && s[lb] == '[' && s[rb]
            == ']',
    decreases s.len() - i,
{
    if i < s.len() {
        lemma_ids_match_bounds(s, i);
        lemma_find_ids_bounds(s, i + 1);
    }
}

fn id_match_at_exec(s: &Vec<char>, i: usize, lit: &Vec<char>) -> (r: Option<(usize, usize)>)
    requires
        i <= s@.len(),
        lit@ == id_lit(),
    ensures
        match (r, id_match_at(s@, i as int)) {
            (Some((q, ve)), Some((sq, sve))) => q as int == sq && ve as int == sve,
            (None, None) => true,
            _ => false,
        },
{
    let n = s.len();
    if !lit_at_exec(s, i, lit) {
        return None;
    }
    let j1 = ws_end_exec(s, i + 5);
    if !(j1 < n && s[j1] == '=') {
        return None;
    }
    let j2 = ws_end_exec(s, j1 + 1);
    if !(j2 < n && is_quote_exec(s[j2])) {
        return None;
    }
    let ve = quote_end_exec(s, j2 + 1);
    if ve < n {
        Some((j2, ve))
    } else {
        None
    }
}

fn ids_match_at_exec(s: &Vec<char>, i: usize, lit: &Vec<char>) -> (r: Option<(usize, usize)>)
    requires
        i <= s@.len(),
        lit@ == ids_lit(),
    ensures
        match (r, ids_match_at(s@, i as int)) {
            (Some((lb, rb)), Some((sl, sr))) => lb as int == sl && rb as int == sr,
            (None, None) => true,
            _ => false,
        },
{
    let n = s.len();
    if !lit_at_exec(s, i, lit) {
        return None;
    }
    let j1 = ws_end_exec(s, i + 9);
    if !(j1 < n && s[j1] == '=') {
        return None;
    }
    let j2 = ws_end_exec(s, j1 + 1);
    if !(j2 < n && s[j2] == '[') {
        return None;
    }
    let rb = bracket_end_exec(s, j2 + 1);
    if rb < n {
        Some((j2, rb))
    } else {
        None
    }
}

/// Find the first identifier assignment of the text.
pub fn find_id_exec(s: &Vec<char>) -> (r: Option<(usize, usize)>)
    ensures
        match (r, find_id(s@, 0)) {
            (Some((q, ve)), Some((sq, sve))) => q as int == sq && ve as int == sve && q < ve
                && ve < s@.len(),
            (None, None) => true,
            _ => false,
        },
{
    let n = s.len();
    let lit = id_lit_chars();
    let mut i: usize = 0;
    while i < n
        invariant
            i <= n,
            n == s@.len(),
            lit@ == id_lit(),
            find_id(s@, 0) == find_id(s@, i as int),
        decreases n - i,
    {
        match id_match_at_exec(s, i, &lit) {
            Some((q, ve)) => {
                proof {
                    lemma_find_id_bounds(s@, 0);
                }
                return Some((q, ve));
            },
            None => {},
        }
        i += 1;
    }
    None
}

/// Find the first list assignment of the text.
pub fn find_ids_exec(s: &Vec<char>) -> (r: Option<(usize, usize)>)
    ensures
        match (r, find_ids(s@, 0)) {
            (Some((lb, rb)), Some((sl, sr))) => lb as int == sl && rb as int == sr && lb < rb
                && rb < s@.len(),
            (None, None) => true,
            _ => false,
        },
{
    let n = s.len();
    let lit = ids_lit_chars();
    let mut i: usize = 0;
    while i < n
        invariant
            i <= n,
            n == s@.len(),
            lit@ == ids_lit(),
            find_ids(s@, 0) == find_ids(s@, i as int),
        decreases n - i,
    {
        match ids_match_at_exec(s, i, &lit) {
            Some((lb, rb)) => {
                proof {
                    lemma_find_ids_bounds(s@, 0);
                }
                return Some((lb, rb));
            },
            None => {},
        }
        i += 1;
    }
    None
}

/// The identifier value of the first identifier assignment, when one is
/// there.
pub open spec fn sp_extract_id(s: Seq<char>) -> Option<Seq<char>> {
    match find_id(s, 0) {
        Some((q, ve)) => Some(s.subrange(q + 1, ve)),
        None => None,
    }
}

/// The raw bracket body of the first list assignment, when one is
/// there.
pub open spec fn sp_extract_ids_raw(s: Seq<char>) -> Option<Seq<char>> {
    match find_ids(s, 0) {
        Some((lb, rb)) => Some(s.subrange(lb + 1, rb)),
        None => None,
    }
}

/// Extract the identifier value: the text between the quotes of the
/// first identifier assignment, or nothing when no assignment matches.
pub fn extract_app_id(content: &str) -> (r: Option<String>)
    ensures
        match (r, sp_extract_id(content@)) {
            (Some(v), Some(sv)) => v@ == sv,
            (None, None) => true,
            _ => false,
        },
{
    let s = chars_of(content);
    match find_id_exec(&s) {
        Some((q, ve)) => {
            let piece = copy_range(&s, q + 1, ve);
            Some(string_from_chars(&piece))
        },
        None => None,
    }
}

/// Extract the raw list body: the text between the brackets of the
/// first list assignment, or nothing when no assignment matches.
pub fn extract_douyin_ids(content: &str) -> (r: Option<String>)
    ensures
        match (r, sp_extract_ids_raw(content@)) {
            (Some(v), Some(sv)) => v@ == sv,
            (None, None) => true,
            _ => false,
        },
{
    let s = chars_of(content);
    match find_ids_exec(&s) {
        Some((lb, rb)) => {
            let piece = copy_range(&s, lb + 1, rb);
            Some(string_from_chars(&piece))
        },
        None => None,
    }
}

/// The first position at or after `i` holding `,`, or the length.
pub open spec fn comma_end(s: Seq<char>, i: int) -> int
    decreases s.len() - i,
{
    if 0 <= i < s.len() && s[i] != ',' {
        comma_end(s, i + 1)
    } else {
        i
    }
}

pub proof fn lemma_comma_end(s: Seq<char>, i: int)
    requires
        0 <= i <= s.len(),
    ensures
        i <= comma_end(s, i) <= s.len(),
    decreases s.len() - i,
{
    if i < s.len() && s[i] != ',' {
        lemma_comma_end(s, i + 1);
    }
}

fn comma_end_exec(s: &Vec<char>, i: usize) -> (r: usize)
    requires
        i <= s@.len(),
    ensures
        r == comma_end(s@, i as int),
        i <= r <= s@.len(),
{
    let n = s.len();
    let mut k = i;
    while k < n && s[k] != ','
        invariant
            i <= k <= n,
            n == s@.len(),
            comma_end(s@, i as int) == comma_end(s@, k as int),
        decreases n - k,
    {
        k += 1;
    }
    k
}

/// The comma-separated pieces of `s` from position `i` on.
pub open spec fn sp_split_from(s: Seq<char>, i: int) -> Seq<Seq<char>>
    decreases s.len() - i,
{
    if i < 0 || i > s.len() {
        Seq::empty()
    } else {
        let c = comma_end(s, i);
        if c < i || c > s.len() {
            Seq::empty()
        } else if c == s.len() {
            seq![s.subrange(i, s.len() as int)]
        } else {
            seq![s.subrange(i, c)] + sp_split_from(s, c + 1)
        }
    }
}

/// `s` without leading whitespace.
pub open spec fn trim_start(s: Seq<char>) -> Seq<char>
    decreases s.len(),
{
    if s.len() > 0 && is_ws(s[0]) {
        trim_start(s.drop_first())
    } else {
        s
    }
}

/// `s` without trailing whitespace.
pub open spec fn trim_end(s: Seq<char>) -> Seq<char>
    decreases s.len(),
{
    if s.len() > 0 && is_ws(s[s.len() - 1]) {
        trim_end(s.drop_last())
    } else {
        s
    }
}

/// `s` without leading or trailing whitespace.
pub open spec fn sp_trim(s: Seq<char>) -> Seq<char> {
    trim_end(trim_start(s))
}

/// `s` with one layer of enclosing quote characters removed: one from
/// the front when the first character is a quote, then one from the
/// back when the last remaining character is a quote.
pub open spec fn strip_quotes(s: Seq<char>) -> Seq<char> {
    let a = if s.len() > 0 && is_quote(s[0]) {
        s.drop_first()
    } else {
        s
    };
    if a.len() > 0 && is_quote(a[a.len() - 1]) {
        a.drop_last()
    } else {
        a
    }
}

/// One list piece after cleaning: trimmed, then one quote layer
/// stripped.
pub open spec fn sp_clean_piece(s: Seq<char>) -> Seq<char> {
    strip_quotes(sp_trim(s))
}

/// The cleaned pieces, empty ones discarded.
pub open spec fn sp_clean_pieces(ps: Seq<Seq<char>>) -> Seq<Seq<char>>
    decreases ps.len(),
{
    if ps.len() == 0 {
        Seq::empty()
    } else {
        let c = sp_clean_piece(ps[0]);
        (if c.len() > 0 {
            seq![c]
        } else {
            Seq::empty()
        }) + sp_clean_pieces(ps.drop_first())
    }
}

/// The platform-ID list a comma-joined editable form stands for: split
/// on commas, trim each piece, strip one quote layer, drop empty
/// pieces.
pub open spec fn sp_clean_ids(s: Seq<char>) -> Seq<Seq<char>> {
    sp_clean_pieces(sp_split_from(s, 0))
}

/// The pieces joined with commas, from index `i` on.
pub open spec fn sp_join_from(ids: Seq<Seq<char>>, i: int) -> Seq<char>
    decreases ids.len() - i,
{
    if i < 0 || i >= ids.len() {
        Seq::empty()
    } else if i + 1 == ids.len() {
        ids[i]
    } else {
        ids[i] + seq![','] + sp_join_from(ids, i + 1)
    }
}

/// The pieces joined with commas.
pub open spec fn sp_join_comma(ids: Seq<Seq<char>>) -> Seq<char> {
    sp_join_from(ids, 0)
}

/// Each piece wrapped in double quotes, joined with commas, from index
/// `i` on.
pub open spec fn sp_quote_join_from(ids: Seq<Seq<char>>, i: int) -> Seq<char>
    decreases ids.len() - i,
{
    if i < 0 || i >= ids.len() {
        Seq::empty()
    } else if i + 1 == ids.len() {
        seq!['"'] + ids[i] + seq!['"']
    } else {
        seq!['"'] + ids[i] + seq!['"', ','] + sp_quote_join_from(ids, i + 1)
    }
}

/// Each piece wrapped in double quotes, joined with commas.
pub open spec fn sp_quote_join(ids: Seq<Seq<char>>) -> Seq<char> {
    sp_quote_join_from(ids, 0)
}

/// The cleaned range of the piece `s[p..c]`: trimming and quote
/// stripping expressed as a narrower index range.
fn clean_piece_range(s: &Vec<char>, p: usize, c: usize) -> (r: (usize, usize))
    requires
        p <= c <= s@.len(),
    ensures
        p <= r.0 <= r.1 <= c,
        sp_clean_piece(s@.subrange(p as int, c as int)) == s@.subrange(r.0 as int, r.1 as int),
{
    let mut a = p;
    while a < c && crate::text::ws_char(s[a])
        invariant
            p <= a <= c <= s@.len(),
            trim_start(s@.subrange(p as int, c as int)) == trim_start(
                s@.subrange(a as int, c as int),
            ),
        decreases c - a,
    {
        proof {
            assert(s@.subrange(a as int, c as int).drop_first() =~= s@.subrange(
                a + 1,
                c as int,
            ));
        }
        a += 1;
    }
    proof {
        assert(trim_start(s@.subrange(p as int, c as int)) == s@.subrange(a as int, c as int));
    }
    let mut b = c;
    while b > a && crate::text::ws_char(s[b - 1])
        invariant
            a <= b <= c <= s@.len(),
            trim_end(s@.subrange(a as int, c as int)) == trim_end(s@.subrange(a as int, b as int)),
        decreases b,
    {
        proof {
            assert(s@.subrange(a as int, b as int).drop_last() =~= s@.subrange(
                a as int,
                b - 1,
            ));
        }
        b -= 1;
    }
    proof {
        assert(sp_trim(s@.subrange(p as int, c as int)) == s@.subrange(a as int, b as int));
    }
    let ghost trimmed = s@.subrange(a as int, b as int);
    let mut a2 = a;
    if a2 < b && is_quote_exec(s[a2]) {
        proof {
            assert(trimmed.drop_first() =~= s@.subrange(a2 + 1, b as int));
        }
        a2 += 1;
    }
    let ghost after_front = s@.subrange(a2 as int, b as int);
    let mut b2 = b;
    if a2 < b2 && is_quote_exec(s[b2 - 1]) {
        proof {
            assert(after_front.drop_last() =~= s@.subrange(a2 as int, b2 - 1));
        }
        b2 -= 1;
    }
    proof {
        assert(strip_quotes(trimmed) == s@.subrange(a2 as int, b2 as int));
    }
    (a2, b2)
}

/// The cleaned pieces of a comma-joined list form.
pub fn clean_ids_chars(s: &Vec<char>) -> (r: Vec<Vec<char>>)
    ensures
        vec_views(r@) == sp_clean_ids(s@),
{
    let n = s.len();
    let mut out: Vec<Vec<char>> = Vec::new();
    let mut pos: usize = 0;
    let mut done = false;
    while !done
        invariant
            pos <= n,
            n == s@.len(),
            !done ==> sp_clean_ids(s@) == vec_views(out@) + sp_clean_pieces(
                sp_split_from(s@, pos as int),
            ),
            done ==> vec_views(out@) == sp_clean_ids(s@),
        decreases n - pos + (if done { 0int } else { 1int }),
    {
        let c = comma_end_exec(s, pos);
        let ghost piece = s@.subrange(pos as int, c as int);
        let ghost split_rest = sp_split_from(s@, c + 1);
        proof {
            if c < n {
                assert(sp_split_from(s@, pos as int) == seq![piece] + split_rest);
                assert((seq![piece] + split_rest).drop_first() =~= split_rest);
            } else {
                assert(sp_split_from(s@, pos as int) == seq![piece]);
                assert(seq![piece].drop_first() =~= Seq::<Seq<char>>::empty());
            }
        }
        let (a, b) = clean_piece_range(s, pos, c);
        let ghost out0 = vec_views(out@);
        if b > a {
            let cleaned = copy_range(s, a, b);
            let ghost gc = cleaned@;
            out.push(cleaned);
            proof {
                assert(vec_views(out@) =~= out0 + seq![gc]);
            }
        }
        if c == n {
            proof {
                assert(sp_clean_pieces(sp_split_from(s@, pos as int)) == (if sp_clean_piece(
                    piece,
                ).len() > 0 {
                    seq![sp_clean_piece(piece)]
                } else {
                    Seq::<Seq<char>>::empty()
                }));
                assert(vec_views(out@) =~= sp_clean_ids(s@));
            }
            done = true;
        } else {
            proof {
                assert(sp_clean_pieces(sp_split_from(s@, pos as int)) == (if sp_clean_piece(
                    piece,
                ).len() > 0 {
                    seq![sp_clean_piece(piece)]
                } else {
                    Seq::<Seq<char>>::empty()
                }) + sp_clean_pieces(split_rest));
                assert(sp_clean_ids(s@) =~= vec_views(out@) + sp_clean_pieces(split_rest));
            }
            pos = c + 1;
        }
    }
    out
}

/// Append the pieces joined with commas, from index `i` on.
fn push_join_from(ids: &Vec<Vec<char>>, i: usize, out: &mut Vec<char>)
    requires
        i < ids@.len(),
    ensures
        final(out)@ == old(out)@ + sp_join_from(vec_views(ids@), i as int),
    decreases ids@.len() - i,
{
    let n = ids.len();
    push_chars(&ids[i], out);
    if i + 1 < n {
        out.push(',');
        push_join_from(ids, i + 1, out);
        assert(final(out)@ =~= old(out)@ + sp_join_from(vec_views(ids@), i as int));
    } else {
        assert(final(out)@ =~= old(out)@ + sp_join_from(vec_views(ids@), i as int));
    }
}

/// The pieces joined with commas.
pub fn join_comma_chars(ids: &Vec<Vec<char>>) -> (r: Vec<char>)
    ensures
        r@ == sp_join_comma(vec_views(ids@)),
{
    let mut out: Vec<char> = Vec::new();
    if ids.len() > 0 {
        push_join_from(ids, 0, &mut out);
    }
    assert(out@ =~= sp_join_comma(vec_views(ids@)));
    out
}

/// Append the double-quoted pieces joined with commas, from index `i`
/// on.
fn push_quote_join_from(ids: &Vec<Vec<char>>, i: usize, out: &mut Vec<char>)
    requires
        i < ids@.len(),
    ensures
        final(out)@ == old(out)@ + sp_quote_join_from(vec_views(ids@), i as int),
    decreases ids@.len() - i,
{
    let n = ids.len();
    out.push('"');
    push_chars(&ids[i], out);
    out.push('"');
    if i + 1 < n {
        out.push(',');
        push_quote_join_from(ids, i + 1, out);
        assert(final(out)@ =~= old(out)@ + sp_quote_join_from(vec_views(ids@), i as int));
    } else {
        assert(final(out)@ =~= old(out)@ + sp_quote_join_from(vec_views(ids@), i as int));
    }
}

/// The double-quoted pieces joined with commas.
pub fn quote_join_chars(ids: &Vec<Vec<char>>) -> (r: Vec<char>)
    ensures
        r@ == sp_quote_join(vec_views(ids@)),
{
    let mut out: Vec<char> = Vec::new();
    if ids.len() > 0 {
        push_quote_join_from(ids, 0, &mut out);
    }
    assert(out@ =~= sp_quote_join(vec_views(ids@)));
    out
}

/// The text with the value of the first identifier assignment replaced:
/// only the quoted value changes, and its quotes become double quotes.
/// Without a match the text is unchanged.
pub open spec fn sp_replace_id(s: Seq<char>, new: Seq<char>) -> Seq<char> {
    match find_id(s, 0) {
        Some((q, ve)) => s.subrange(0, q) + seq!['"'] + new + seq!['"'] + s.subrange(
            ve + 1,
            s.len() as int,
        ),
        None => s,
    }
}

/// The text with the bracket body of the first list assignment
/// replaced.  Without a match the text is unchanged.
pub open spec fn sp_replace_ids_raw(s: Seq<char>, body: Seq<char>) -> Seq<char> {
    match find_ids(s, 0) {
        Some((lb, rb)) => s.subrange(0, lb + 1) + body + s.subrange(rb, s.len() as int),
        None => s,
    }
}

/// The full replacement: the identifier value first, then the list
/// body, rebuilt as double-quoted cleaned pieces of the comma-joined
/// form.
pub open spec fn sp_replace(s: Seq<char>, app_id: Seq<char>, ids_str: Seq<char>) -> Seq<char> {
    sp_replace_ids_raw(sp_replace_id(s, app_id), sp_quote_join(sp_clean_ids(ids_str)))
}

fn replace_id_chars(s: &Vec<char>, new: &Vec<char>) -> (r: Vec<char>)
    ensures
        r@ == sp_replace_id(s@, new@),
{
    match find_id_exec(s) {
        Some((q, ve)) => {
            let n = s.len();
            let mut out = copy_range(s, 0, q);
            out.push('"');
            push_chars(new, &mut out);
            out.push('"');
            let tail = copy_range(s, ve + 1, n);
            push_chars(&tail, &mut out);
            assert(out@ =~= sp_replace_id(s@, new@));
            out
        },
        None => clone_chars(s),
    }
}

fn replace_ids_raw_chars(s: &Vec<char>, body: &Vec<char>) -> (r: Vec<char>)
    ensures
        r@ == sp_replace_ids_raw(s@, body@),
{
    match find_ids_exec(s) {
        Some((lb, rb)) => {
            let n = s.len();
            let mut out = copy_range(s, 0, lb + 1);
            push_chars(body, &mut out);
            let tail = copy_range(s, rb, n);
            push_chars(&tail, &mut out);
            assert(out@ =~= sp_replace_ids_raw(s@, body@));
            out
        },
        None => clone_chars(s),
    }
}

/// Replace both fields in script text: the first identifier
/// assignment's value (quotes normalized to double quotes) and the
/// first list assignment's body (rebuilt from the comma-joined form).
/// A field whose pattern is absent is left untouched.
pub fn script_replace(content: &str, app_id: &str, douyin_ids_str: &str) -> (r: String)
    ensures
        r@ == sp_replace(content@, app_id@, douyin_ids_str@),
{
    let s = chars_of(content);
    let idc = chars_of(app_id);
    let idsc = chars_of(douyin_ids_str);
    let s1 = replace_id_chars(&s, &idc);
    let cleaned = clean_ids_chars(&idsc);
    let body = quote_join_chars(&cleaned);
    let s2 = replace_ids_raw_chars(&s1, &body);
    string_from_chars(&s2)
}

/// Whether writing is needed: true exactly when the replacement differs
/// from the content, so a caller can skip the write when nothing
/// changes.
pub fn script_write_needed(content: &str, app_id: &str, douyin_ids_str: &str) -> (r: bool)
    ensures
        r == (sp_replace(content@, app_id@, douyin_ids_str@) != content@),
{
    let s = chars_of(content);
    let idc = chars_of(app_id);
    let idsc = chars_of(douyin_ids_str);
    let s1 = replace_id_chars(&s, &idc);
    let cleaned = clean_ids_chars(&idsc);
    let body = quote_join_chars(&cleaned);
    let s2 = replace_ids_raw_chars(&s1, &body);
    !chars_eq(&s2, &s)
}

/// The extracted identifier, defaulting to empty when the pattern is
/// absent.
pub open spec fn sp_extract_id_or_empty(s: Seq<char>) -> Seq<char> {
    match sp_extract_id(s) {
        Some(v) => v,
        None => Seq::empty(),
    }
}

/// The extracted platform-ID list, defaulting to empty when the pattern
/// is absent.
pub open spec fn sp_extract_list(s: Seq<char>) -> Seq<Seq<char>> {
    match sp_extract_ids_raw(s) {
        Some(b) => sp_clean_ids(b),
        None => Seq::empty(),
    }
}

/// The field set extracted from one script file: the identifier, the
/// platform-ID list, and the list's editable comma-joined form.
pub struct JsConfig {
    /// The identifier value of the first identifier assignment; empty
    /// when the pattern is absent.
    pub app_id: String,
    /// The cleaned platform-ID list of the first list assignment; empty
    /// when the pattern is absent.
    pub douyin_ids: Vec<String>,
    /// The list joined with commas, kept consistent with the list.
    pub douyin_ids_str: String,
}

impl JsConfig {
    /// An empty field set.
    pub fn empty() -> (r: JsConfig)
        ensures
            r.app_id@ == Seq::<char>::empty(),
            r.douyin_ids@.len() == 0,
            r.douyin_ids_str@ == Seq::<char>::empty(),
    {
        JsConfig { app_id: String::new(), douyin_ids: Vec::new(), douyin_ids_str: String::new() }
    }

    /// Set the editable comma-joined form and regenerate the list from
    /// it, keeping the two consistent.
    pub fn set_douyin_ids_str(&mut self, s: &str)
        ensures
            final(self).douyin_ids_str@ == s@,
            str_views(final(self).douyin_ids@) == sp_clean_ids(s@),
            final(self).app_id == old(self).app_id,
    {
        let sc = chars_of(s);
        let pieces = clean_ids_chars(&sc);
        self.douyin_ids = strings_of_pieces(&pieces);
        self.douyin_ids_str = string_from_chars(&sc);
    }
}

/// The pieces as strings.
pub fn strings_of_pieces(pieces: &Vec<Vec<char>>) -> (r: Vec<String>)
    ensures
        str_views(r@) == vec_views(pieces@),
{
    let n = pieces.len();
    let mut out: Vec<String> = Vec::new();
    let mut i: usize = 0;
    while i < n
        invariant
            i <= n,
            n == pieces@.len(),
            str_views(out@) =~= vec_views(pieces@).subrange(0, i as int),
        decreases n - i,
    {
        let s2 = string_from_chars(&pieces[i]);
        let ghost gs = s2@;
        let ghost prev = str_views(out@);
        out.push(s2);
        proof {
            assert(str_views(out@) =~= prev.push(gs));
            assert(vec_views(pieces@)[i as int] == pieces@[i as int]@);
            assert(str_views(out@) =~= vec_views(pieces@).subrange(0, i + 1));
        }
        i += 1;
    }
    assert(str_views(out@) =~= vec_views(pieces@));
    out
}

/// Extract the field set of a script file: the first identifier
/// assignment's value and the cleaned pieces of the first list
/// assignment's body, each defaulting to empty when its pattern is
/// absent.
pub fn js_config_from_content(content: &str) -> (r: JsConfig)
    ensures
        r.app_id@ == sp_extract_id_or_empty(content@),
        str_views(r.douyin_ids@) == sp_extract_list(content@),
        r.douyin_ids_str@ == sp_join_comma(sp_extract_list(content@)),
{
    let s = chars_of(content);
    let app_id = match find_id_exec(&s) {
        Some((q, ve)) => {
            let piece = copy_range(&s, q + 1, ve);
            string_from_chars(&piece)
        },
        None => String::new(),
    };
    let pieces: Vec<Vec<char>> = match find_ids_exec(&s) {
        Some((lb, rb)) => {
            let body = copy_range(&s, lb + 1, rb);
            clean_ids_chars(&body)
        },
        None => Vec::new(),
    };
    proof {
        assert(vec_views(Seq::<Vec<char>>::empty()) =~= Seq::<Seq<char>>::empty());
    }
    let douyin_ids = strings_of_pieces(&pieces);
    let joined = join_comma_chars(&pieces);
    let douyin_ids_str = string_from_chars(&joined);
    JsConfig { app_id, douyin_ids, douyin_ids_str }
}

/// A piece that survives re-derivation untouched: nonempty, no comma
/// anywhere, and neither whitespace nor a quote at either end.
pub open spec fn plain_piece(p: Seq<char>) -> bool {
    &&& p.len() > 0
    &&& !is_ws(p[0]) && !is_ws(p[p.len() - 1])
    &&& !is_quote(p[0]) && !is_quote(p[p.len() - 1])
    &&& forall|k: int| 0 <= k < p.len() ==> p[k] != ','
}

proof fn lemma_comma_end_known(s: Seq<char>, i: int, j: int)
    requires
        0 <= i <= j <= s.len(),
        forall|k: int| i <= k < j ==> s[k] != ',',
        j == s.len() || s[j] == ',',
    ensures
        comma_end(s, i) == j,
    decreases j - i,
{
    if i < j {
        lemma_comma_end_known(s, i + 1, j);
    }
}

proof fn lemma_split_of_join(s: Seq<char>, i: int, ids: Seq<Seq<char>>, t: int)
    requires
        0 <= i <= s.len(),
        0 <= t < ids.len(),
        s.subrange(i, s.len() as int) == sp_join_from(ids, t),
        forall|k: int, x: int|
            t <= k < ids.len() && 0 <= x < ids[k].len() ==> #[trigger] ids[k][x] != ',',
    ensures
        sp_split_from(s, i) == ids.subrange(t, ids.len() as int),
    decreases ids.len() - t,
{
    let suffix = s.subrange(i, s.len() as int);
    let p = ids[t];
    if t + 1 == ids.len() {
        assert(suffix == p);
        assert(forall|k: int| i <= k < s.len() ==> s[k] == suffix[k - i]);
        lemma_comma_end_known(s, i, s.len() as int);
        assert(s.subrange(i, s.len() as int) =~= p);
        assert(sp_split_from(s, i) =~= ids.subrange(t, ids.len() as int));
    } else {
        assert(suffix == p + seq![','] + sp_join_from(ids, t + 1));
        assert(forall|k: int| i <= k < s.len() ==> s[k] == suffix[k - i]);
        let c = i + p.len() as int;
        assert(c <= s.len());
        assert(forall|k: int| i <= k < c ==> s[k] == p[k - i]);
        lemma_comma_end_known(s, i, c);
        assert(s.subrange(i, c) =~= p);
        assert(s.subrange(c + 1, s.len() as int) =~= sp_join_from(ids, t + 1));
        lemma_split_of_join(s, c + 1, ids, t + 1);
        assert(seq![p] + ids.subrange(t + 1, ids.len() as int) =~= ids.subrange(
            t,
            ids.len() as int,
        ));
    }
}

proof fn lemma_clean_piece_plain(p: Seq<char>)
    requires
        plain_piece(p),
    ensures
        sp_clean_piece(p) == p,
{
    assert(trim_start(p) == p);
    assert(trim_end(p) == p);
    assert(strip_quotes(p) == p);
}

proof fn lemma_clean_pieces_plain(ids: Seq<Seq<char>>)
    requires
        forall|k: int| 0 <= k < ids.len() ==> plain_piece(#[trigger] ids[k]),
    ensures
        sp_clean_pieces(ids) == ids,
    decreases ids.len(),
{
    if ids.len() > 0 {
        lemma_clean_piece_plain(ids[0]);
        lemma_clean_pieces_plain(ids.drop_first());
        assert(sp_clean_pieces(ids) =~= ids);
    }
}

/// Cleaning is stable on plain pieces: re-deriving the list from its
/// own comma-joined form gives the same list back.
pub proof fn lemma_clean_join_stable(ids: Seq<Seq<char>>)
    requires
        forall|k: int| 0 <= k < ids.len() ==> plain_piece(#[trigger] ids[k]),
    ensures
        sp_clean_ids(sp_join_comma(ids)) == ids,
{
    let s = sp_join_comma(ids);
    if ids.len() == 0 {
        assert(s =~= Seq::<char>::empty());
        lemma_comma_end_known(s, 0, 0);
        let piece = s.subrange(0, 0);
        assert(sp_split_from(s, 0) == seq![piece]);
        assert(piece.len() == 0);
        assert(sp_clean_piece(piece).len() == 0);
        assert(seq![piece].drop_first() =~= Seq::<Seq<char>>::empty());
        assert(seq![piece][0] == piece);
        assert(sp_clean_pieces(Seq::<Seq<char>>::empty()) =~= Seq::<Seq<char>>::empty());
        assert(sp_clean_pieces(seq![piece]) =~= Seq::<Seq<char>>::empty());
        assert(sp_clean_ids(s) =~= ids);
    } else {
        assert(s.subrange(0, s.len() as int) =~= sp_join_from(ids, 0));
        assert forall|k: int, x: int|
            0 <= k < ids.len() && 0 <= x < ids[k].len() implies #[trigger] ids[k][x] != ',' by {
            assert(plain_piece(ids[k]));
        }
        lemma_split_of_join(s, 0, ids, 0);
        assert(ids.subrange(0, ids.len() as int) =~= ids);
        lemma_clean_pieces_plain(ids);
    }
}

/// Replacing with the field set just extracted gives the text back
/// byte for byte, provided the matched regions are already in the
/// canonical form the replacement writes: the identifier value in
/// double quotes, and the list body exactly the double-quoted join of
/// its own cleaned pieces, each piece plain.
pub proof fn lemma_replace_extracted_identity(s: Seq<char>)
    requires
        find_id(s, 0) matches Some((q, ve)) ==> s[q] == '"' && s[ve] == '"',
        find_ids(s, 0) matches Some((lb, rb)) ==> {
            let ids = sp_clean_ids(s.subrange(lb + 1, rb));
            &&& s.subrange(lb + 1, rb) == sp_quote_join(ids)
            &&& forall|k: int| 0 <= k < ids.len() ==> plain_piece(#[trigger] ids[k])
        },
    ensures
        sp_replace(s, sp_extract_id_or_empty(s), sp_join_comma(sp_extract_list(s))) == s,
{
    lemma_find_id_bounds(s, 0);
    lemma_find_ids_bounds(s, 0);
    let app_id = sp_extract_id_or_empty(s);
    match find_id(s, 0) {
        Some((q, ve)) => {
            assert(app_id == s.subrange(q + 1, ve));
            assert(sp_replace_id(s, app_id) =~= s);
        },
        None => {
            assert(sp_replace_id(s, app_id) == s);
        },
    }
    let ids_str = sp_join_comma(sp_extract_list(s));
    match find_ids(s, 0) {
        Some((lb, rb)) => {
            let body = s.subrange(lb + 1, rb);
            let ids = sp_clean_ids(body);
            assert(sp_extract_list(s) == ids);
            lemma_clean_join_stable(ids);
            assert(sp_quote_join(sp_clean_ids(ids_str)) == body);
            assert(sp_replace_ids_raw(s, body) =~= s);
        },
        None => {
            assert(sp_extract_list(s) =~= Seq::<Seq<char>>::empty());
            let cleaned = sp_clean_ids(ids_str);
            lemma_clean_join_stable(Seq::<Seq<char>>::empty());
            assert(sp_join_comma(Seq::<Seq<char>>::empty()) =~= Seq::<char>::empty());
            assert(sp_replace_ids_raw(s, sp_quote_join(cleaned)) == s);
        },
    }
}

/// A script in which neither pattern occurs extracts to empty defaults,
/// and replacement, with any field set at all, gives the text back
/// unchanged.
pub proof fn lemma_missing_fields_noop(s: Seq<char>, app_id: Seq<char>, ids_str: Seq<char>)
    requires
        find_id(s, 0) is None,
        find_ids(s, 0) is None,
    ensures
        sp_extract_id_or_empty(s) == Seq::<char>::empty(),
        sp_extract_list(s) == Seq::<Seq<char>>::empty(),
        sp_replace(s, app_id, ids_str) == s,
{
    assert(sp_replace_id(s, app_id) == s);
    assert(sp_replace_ids_raw(s, sp_quote_join(sp_clean_ids(ids_str))) == s);
}

} // verus!
