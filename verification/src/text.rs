//! Character and string utilities shared by the chat engine: ASCII case
//! folding, decimal rendering of counters, and small parsing helpers.
use vstd::prelude::*;

verus! {

/// ASCII case folding of a single character; everything outside `A`..`Z`
/// is left unchanged.
pub open spec fn fold_char(c: char) -> char {
    if 'A' <= c && c <= 'Z' {
        (((c as u32) + 32) as u8) as char
    } else {
        c
    }
}

/// ASCII case folding of a whole character sequence.
pub open spec fn fold_seq(s: Seq<char>) -> Seq<char> {
    s.map_values(|c: char| fold_char(c))
}

pub broadcast proof fn lemma_fold_concat(a: Seq<char>, b: Seq<char>)
    ensures
        #[trigger] fold_seq(a + b) == fold_seq(a) + fold_seq(b),
{
    assert(fold_seq(a + b) =~= fold_seq(a) + fold_seq(b));
}

/// Case folding one character, executably.
pub fn to_fold(c: char) -> (r: char)
    ensures
        r == fold_char(c),
{
    if 'A' <= c && c <= 'Z' {
        (((c as u32) + 32) as u8) as char
    } else {
        c
    }
}

/// Exact string equality.
pub fn eq_str(a: &str, b: &str) -> (r: bool)
    ensures
        r == (a@ == b@),
{
    let la = a.unicode_len();
    let lb = b.unicode_len();
    if la != lb {
        return false;
    }
    let mut i: usize = 0;
    while i < la
        invariant
            0 <= i <= la,
            la == a@.len(),
            la == b@.len(),
            forall|j: int| 0 <= j < i ==> a@[j] == b@[j],
        decreases la - i,
    {
        if a.get_char(i) != b.get_char(i) {
            return false;
        }
        i = i + 1;
    }
    proof {
        assert(a@ =~= b@);
    }
    true
}

/// Case-insensitive string equality, the comparison used for display names.
pub fn eq_str_fold(a: &str, b: &str) -> (r: bool)
    ensures
        r == (fold_seq(a@) == fold_seq(b@)),
{
    let la = a.unicode_len();
    let lb = b.unicode_len();
    if la != lb {
        proof {
            assert(fold_seq(a@).len() != fold_seq(b@).len());
        }
        return false;
    }
    let mut i: usize = 0;
    while i < la
        invariant
            0 <= i <= la,
            la == a@.len(),
            la == b@.len(),
            forall|j: int| 0 <= j < i ==> fold_char(a@[j]) == fold_char(b@[j]),
        decreases la - i,
    {
        if to_fold(a.get_char(i)) != to_fold(b.get_char(i)) {
            proof {
                assert(fold_seq(a@)[i as int] != fold_seq(b@)[i as int]);
            }
            return false;
        }
        i = i + 1;
    }
    proof {
        assert(fold_seq(a@) =~= fold_seq(b@));
    }
    true
}

/// The character for one decimal digit.
pub open spec fn digit_char(d: int) -> char
    recommends
        0 <= d <= 9,
{
    if d == 0 { '0' }
    else if d == 1 { '1' }
    else if d == 2 { '2' }
    else if d == 3 { '3' }
    else if d == 4 { '4' }
    else if d == 5 { '5' }
    else if d == 6 { '6' }
    else if d == 7 { '7' }
    else if d == 8 { '8' }
    else { '9' }
}

/// The numeric value of a decimal digit character.
pub open spec fn digit_val(c: char) -> int {
    if c == '0' { 0 }
    else if c == '1' { 1 }
    else if c == '2' { 2 }
    else if c == '3' { 3 }
    else if c == '4' { 4 }
    else if c == '5' { 5 }
    else if c == '6' { 6 }
    else if c == '7' { 7 }
    else if c == '8' { 8 }
    else { 9 }
}

/// Decimal rendering of a natural number, without leading zeroes.
pub open spec fn dec_rep(n: nat) -> Seq<char>
    decreases n,
{
    if n < 10 {
        seq![digit_char(n as int)]
    } else {
        dec_rep(n / 10).push(digit_char((n % 10) as int))
    }
}

/// The number a digit sequence denotes.
pub open spec fn dec_val(s: Seq<char>) -> int
    decreases s.len(),
{
    if s.len() <= 1 {
        digit_val(s[0])
    } else {
        dec_val(s.drop_last()) * 10 + digit_val(s.last())
    }
}

pub proof fn lemma_dec_val_of_rep(n: nat)
    ensures
        dec_val(dec_rep(n)) == n,
    decreases n,
{
    if n < 10 {
    } else {
        lemma_dec_val_of_rep(n / 10);
        assert(dec_rep(n).drop_last() =~= dec_rep(n / 10));
    }
}

/// Decimal renderings of distinct numbers are distinct.
pub proof fn lemma_dec_rep_injective(a: nat, b: nat)
    requires
        dec_rep(a) == dec_rep(b),
    ensures
        a == b,
{
    lemma_dec_val_of_rep(a);
    lemma_dec_val_of_rep(b);
}

/// Digits and `-` are unchanged by case folding.
pub proof fn lemma_fold_fixes_dec(n: nat)
    ensures
        fold_seq(dec_rep(n)) == dec_rep(n),
    decreases n,
{
    if n < 10 {
        assert(fold_seq(dec_rep(n)) =~= dec_rep(n));
    } else {
        lemma_fold_fixes_dec(n / 10);
        assert(fold_seq(dec_rep(n)) =~= fold_seq(dec_rep(n / 10)) + fold_seq(
            seq![digit_char((n % 10) as int)],
        )) by {
            assert(dec_rep(n) =~= dec_rep(n / 10) + seq![digit_char((n % 10) as int)]);
            lemma_fold_concat(dec_rep(n / 10), seq![digit_char((n % 10) as int)]);
        }
        assert(fold_seq(seq![digit_char((n % 10) as int)]) =~= seq![digit_char((n % 10) as int)]);
        assert(fold_seq(dec_rep(n)) =~= dec_rep(n));
    }
}

/// One decimal digit as a string literal.
fn digit_str(d: u64) -> (r: &'static str)
    requires
        d < 10,
    ensures
        r@ == seq![digit_char(d as int)],
{
    proof {
        reveal_strlit("0");
        reveal_strlit("1");
        reveal_strlit("2");
        reveal_strlit("3");
        reveal_strlit("4");
        reveal_strlit("5");
        reveal_strlit("6");
        reveal_strlit("7");
        reveal_strlit("8");
        reveal_strlit("9");
    }
    let r = if d == 0 { "0" }
    else if d == 1 { "1" }
    else if d == 2 { "2" }
    else if d == 3 { "3" }
    else if d == 4 { "4" }
    else if d == 5 { "5" }
    else if d == 6 { "6" }
    else if d == 7 { "7" }
    else if d == 8 { "8" }
    else { "9" };
    proof {
        assert(r@ =~= seq![digit_char(d as int)]);
    }
    r
}

/// Decimal rendering of a counter, executably.
pub fn u64_to_string(n: u64) -> (r: String)
    ensures
        r@ == dec_rep(n as nat),
    decreases n,
{
    if n < 10 {
        digit_str(n).to_owned()
    } else {
        let mut s = u64_to_string(n / 10);
        s.append(digit_str(n % 10));
        proof {
            assert(s@ =~= dec_rep(n as nat));
        }
        s
    }
}

/// Concatenation of three string slices.
pub fn concat3(a: &str, b: &str, c: &str) -> (r: String)
    ensures
        r@ == a@ + b@ + c@,
{
    let mut s = a.to_owned();
    s.append(b);
    s.append(c);
    s
}

/// Concatenation of five string slices.
pub fn concat5(a: &str, b: &str, c: &str, d: &str, e: &str) -> (r: String)
    ensures
        r@ == a@ + b@ + c@ + d@ + e@,
{
    let mut s = a.to_owned();
    s.append(b);
    s.append(c);
    s.append(d);
    s.append(e);
    s
}


/// Whitespace for the purposes of trimming directive tokens.
pub open spec fn is_ws(c: char) -> bool {
    c == ' ' || c == '\t' || c == '\n' || c == '\r'
}

/// Executable whitespace test.
pub fn is_ws_char(c: char) -> (r: bool)
    ensures
        r == is_ws(c),
{
    c == ' ' || c == '\t' || c == '\n' || c == '\r'
}

/// Number of leading whitespace characters.
pub open spec fn lead_ws(s: Seq<char>) -> nat
    decreases s.len(),
{
    if s.len() == 0 || !is_ws(s[0]) {
        0
    } else {
        (1 + lead_ws(s.drop_first())) as nat
    }
}

/// Number of trailing whitespace characters.
pub open spec fn trail_ws(s: Seq<char>) -> nat
    decreases s.len(),
{
    if s.len() == 0 || !is_ws(s.last()) {
        0
    } else {
        (1 + trail_ws(s.drop_last())) as nat
    }
}

/// The string with leading and trailing whitespace removed.
pub open spec fn trim_spec(s: Seq<char>) -> Seq<char> {
    if lead_ws(s) == s.len() {
        Seq::empty()
    } else {
        s.subrange(lead_ws(s) as int, s.len() - trail_ws(s))
    }
}

proof fn lemma_lead_ws_at(s: Seq<char>, i: int)
    requires
        0 <= i <= s.len(),
        forall|j: int| 0 <= j < i ==> is_ws(s[j]),
        i == s.len() || !is_ws(s[i]),
    ensures
        lead_ws(s) == i,
    decreases s.len(),
{
    if i == 0 {
    } else {
        assert(is_ws(s[0]));
        assert(forall|j: int| 0 <= j < i - 1 ==> s.drop_first()[j] == s[j + 1]);
        lemma_lead_ws_at(s.drop_first(), i - 1);
    }
}

proof fn lemma_trail_ws_at(s: Seq<char>, j: int)
    requires
        0 <= j <= s.len(),
        forall|k: int| j <= k < s.len() ==> is_ws(s[k]),
        j == 0 || !is_ws(s[j - 1]),
    ensures
        trail_ws(s) == s.len() - j,
    decreases s.len(),
{
    if j == s.len() {
    } else {
        assert(is_ws(s.last()));
        assert(forall|k: int| 0 <= k < s.len() - 1 ==> s.drop_last()[k] == s[k]);
        lemma_trail_ws_at(s.drop_last(), j);
    }
}

/// Strips leading and trailing whitespace, as directive arguments are.
pub fn trim_str<'a>(s: &'a str) -> (r: &'a str)
    ensures
        r@ == trim_spec(s@),
{
    let len = s.unicode_len();
    let mut i: usize = 0;
    loop
        invariant
            0 <= i <= len,
            len == s@.len(),
            forall|j: int| 0 <= j < i ==> is_ws(s@[j]),
        ensures
            0 <= i <= len,
            forall|j: int| 0 <= j < i ==> is_ws(s@[j]),
            i == len || !is_ws(s@[i as int]),
        decreases len - i,
    {
        if i == len {
            break;
        }
        if !is_ws_char(s.get_char(i)) {
            break;
        }
        i = i + 1;
    }
    if i == len {
        proof {
            lemma_lead_ws_at(s@, i as int);
            reveal_strlit("");
            assert(""@ =~= trim_spec(s@));
        }
        return "";
    }
    let mut j: usize = len;
    loop
        invariant
            i < j <= len || j == len,
            i < len,
            len == s@.len(),
            !is_ws(s@[i as int]),
            i < j,
            forall|k: int| j <= k < len ==> is_ws(s@[k]),
        ensures
            i < j <= len,
            forall|k: int| j <= k < len ==> is_ws(s@[k]),
            !is_ws(s@[j - 1]),
        decreases j,
    {
        if !is_ws_char(s.get_char(j - 1)) {
            break;
        }
        if j - 1 == i {
            proof {
                assert(false);
            }
        }
        j = j - 1;
    }
    let r = s.substring_char(i, j);
    proof {
        lemma_lead_ws_at(s@, i as int);
        lemma_trail_ws_at(s@, j as int);
        assert(r@ =~= trim_spec(s@));
    }
    r
}

/// Trimming changes nothing when neither end is whitespace.
pub proof fn lemma_trim_noop(s: Seq<char>)
    requires
        s.len() > 0,
        !is_ws(s[0]),
        !is_ws(s[s.len() - 1]),
    ensures
        trim_spec(s) == s,
{
    lemma_lead_ws_at(s, 0);
    lemma_trail_ws_at(s, s.len() as int);
    assert(trim_spec(s) =~= s);
}

/// Index of the first space, or the length if there is none.
pub open spec fn until_space(s: Seq<char>) -> nat
    decreases s.len(),
{
    if s.len() == 0 || s[0] == ' ' {
        0
    } else {
        (1 + until_space(s.drop_first())) as nat
    }
}

pub proof fn lemma_until_space_at(s: Seq<char>, i: int)
    requires
        0 <= i <= s.len(),
        forall|j: int| 0 <= j < i ==> s[j] != ' ',
        i == s.len() || s[i] == ' ',
    ensures
        until_space(s) == i,
    decreases s.len(),
{
    if i == 0 {
    } else {
        assert(forall|j: int| 0 <= j < i - 1 ==> s.drop_first()[j] == s[j + 1]);
        lemma_until_space_at(s.drop_first(), i - 1);
    }
}

/// Scan for the first space.
pub fn first_space(s: &str) -> (i: usize)
    ensures
        i == until_space(s@),
        i <= s@.len(),
{
    let len = s.unicode_len();
    let mut i: usize = 0;
    loop
        invariant
            0 <= i <= len,
            len == s@.len(),
            forall|j: int| 0 <= j < i ==> s@[j] != ' ',
        ensures
            0 <= i <= len,
            forall|j: int| 0 <= j < i ==> s@[j] != ' ',
            i == len || s@[i as int] == ' ',
        decreases len - i,
    {
        if i == len {
            break;
        }
        if s.get_char(i) == ' ' {
            break;
        }
        i = i + 1;
    }
    proof {
        lemma_until_space_at(s@, i as int);
    }
    i
}

/// First token of a directive line.
pub open spec fn tok1(s: Seq<char>) -> Seq<char> {
    s.subrange(0, until_space(s) as int)
}

/// Whether a second token is present.
pub open spec fn has_tok2(s: Seq<char>) -> bool {
    until_space(s) < s.len()
}

/// Second token: between the first and second space.
pub open spec fn tok2(s: Seq<char>) -> Seq<char> {
    let t = s.skip(until_space(s) as int + 1);
    t.subrange(0, until_space(t) as int)
}

/// Whether a remainder after the second space is present.
pub open spec fn has_tok3(s: Seq<char>) -> bool {
    has_tok2(s) && until_space(s.skip(until_space(s) as int + 1)) < s.skip(until_space(s) as int + 1).len()
}

/// Everything after the second space, spaces preserved.
pub open spec fn tok3(s: Seq<char>) -> Seq<char> {
    let t = s.skip(until_space(s) as int + 1);
    t.skip(until_space(t) as int + 1)
}

/// Splits a directive line into the leading token, one argument token, and
/// the raw remainder, the way a two-space split leaves them.
pub fn split3(line: &str) -> (r: (String, Option<String>, Option<String>))
    ensures
        r.0@ == tok1(line@),
        r.1 is Some <==> has_tok2(line@),
        r.1 is Some ==> r.1.unwrap()@ == tok2(line@),
        r.2 is Some <==> has_tok3(line@),
        r.2 is Some ==> r.2.unwrap()@ == tok3(line@),
{
    let len = line.unicode_len();
    let u0 = first_space(line);
    let head = line.substring_char(0, u0).to_owned();
    if u0 == len {
        return (head, None, None);
    }
    let t = line.substring_char(u0 + 1, len);
    let tlen = t.unicode_len();
    let u1 = first_space(t);
    let arg = t.substring_char(0, u1).to_owned();
    proof {
        assert(t@ =~= line@.skip(until_space(line@) as int + 1));
    }
    if u1 == tlen {
        return (head, Some(arg), None);
    }
    let rest = t.substring_char(u1 + 1, tlen).to_owned();
    proof {
        assert(rest@ =~= tok3(line@));
    }
    (head, Some(arg), Some(rest))
}


/// Word characters, as mention tokens are made of.
pub open spec fn is_word_char(c: char) -> bool {
    ('a' <= c && c <= 'z') || ('A' <= c && c <= 'Z') || ('0' <= c && c <= '9') || c == '_'
}

/// Length of the leading run of word characters.
pub open spec fn word_len(s: Seq<char>) -> nat
    decreases s.len(),
{
    if s.len() == 0 || !is_word_char(s[0]) {
        0
    } else {
        (1 + word_len(s.drop_first())) as nat
    }
}

pub proof fn lemma_word_len_at(s: Seq<char>, i: int)
    requires
        0 <= i <= s.len(),
        forall|j: int| 0 <= j < i ==> is_word_char(s[j]),
        i == s.len() || !is_word_char(s[i]),
    ensures
        word_len(s) == i,
    decreases s.len(),
{
    if i == 0 {
    } else {
        assert(forall|j: int| 0 <= j < i - 1 ==> s.drop_first()[j] == s[j + 1]);
        lemma_word_len_at(s.drop_first(), i - 1);
    }
}

/// Scan for the end of the leading word run.
fn word_prefix_len(s: &str) -> (i: usize)
    ensures
        i == word_len(s@),
{
    let len = s.unicode_len();
    let mut i: usize = 0;
    loop
        invariant
            0 <= i <= len,
            len == s@.len(),
            forall|j: int| 0 <= j < i ==> is_word_char(s@[j]),
        ensures
            0 <= i <= len,
            forall|j: int| 0 <= j < i ==> is_word_char(s@[j]),
            i == len || !is_word_char(s@[i as int]),
        decreases len - i,
    {
        if i == len {
            break;
        }
        let c = s.get_char(i);
        if !(('a' <= c && c <= 'z') || ('A' <= c && c <= 'Z') || ('0' <= c && c <= '9') || c
            == '_') {
            break;
        }
        i = i + 1;
    }
    proof {
        lemma_word_len_at(s@, i as int);
    }
    i
}


pub proof fn lemma_word_len_le(s: Seq<char>)
    ensures
        word_len(s) <= s.len(),
    decreases s.len(),
{
    if s.len() == 0 || !is_word_char(s[0]) {
    } else {
        lemma_word_len_le(s.drop_first());
    }
}

/// The `@name` tokens of a message body, in order: each `@` followed by a
/// non-empty run of word characters yields that run.
pub open spec fn mentions_of(s: Seq<char>) -> Seq<Seq<char>>
    decreases s.len() via mentions_of_decreases
{
    if s.len() == 0 {
        Seq::empty()
    } else if s[0] == '@' && word_len(s.skip(1)) > 0 {
        seq![s.subrange(1, 1 + word_len(s.skip(1)) as int)] + mentions_of(
            s.skip(1 + word_len(s.skip(1)) as int),
        )
    } else {
        mentions_of(s.skip(1))
    }
}


#[via_fn]
proof fn mentions_of_decreases(s: Seq<char>) {
    if s.len() > 0 {
        lemma_word_len_le(s.skip(1));
    }
}

/// Collects the `@name` mentions of a message body.
pub fn extract_mentions(text: &str) -> (r: Vec<String>)
    ensures
        r@.map_values(|t: String| t@) == mentions_of(text@),
    decreases text@.len(),
{
    let len = text.unicode_len();
    if len == 0 {
        let r: Vec<String> = Vec::new();
        proof {
            assert(r@.map_values(|t: String| t@) =~= mentions_of(text@));
        }
        return r;
    }
    if text.get_char(0) == '@' {
        let tail = text.substring_char(1, len);
        proof {
            assert(tail@ =~= text@.skip(1));
        }
        let wl = word_prefix_len(tail);
        proof {
            lemma_word_len_le(tail@);
        }
        if wl > 0 {
            let word = text.substring_char(1, 1 + wl).to_owned();
            let rest = text.substring_char(1 + wl, len);
            proof {
                assert(rest@ =~= text@.skip(1 + word_len(text@.skip(1)) as int));
            }
            let mut v = extract_mentions(rest);
            let mut out: Vec<String> = Vec::new();
            out.push(word);
            out.append(&mut v);
            proof {
                assert(out@.map_values(|t: String| t@) =~= mentions_of(text@));
            }
            return out;
        }
    }
    let rest = text.substring_char(1, len);
    proof {
        assert(rest@ =~= text@.skip(1));
    }
    let r = extract_mentions(rest);
    proof {
        assert(r@.map_values(|t: String| t@) =~= mentions_of(text@));
    }
    r
}

/// Whether the sequence opens with `http://` or `https://`.
pub open spec fn starts_url(s: Seq<char>) -> bool {
    (s.len() >= 7 && s[0] == 'h' && s[1] == 't' && s[2] == 't' && s[3] == 'p' && s[4] == ':'
        && s[5] == '/' && s[6] == '/') || (s.len() >= 8 && s[0] == 'h' && s[1] == 't' && s[2]
        == 't' && s[3] == 'p' && s[4] == 's' && s[5] == ':' && s[6] == '/' && s[7] == '/')
}

/// The first embedded URL of a message body: from the first `http://` or
/// `https://` up to the next space.
pub open spec fn first_url_of(s: Seq<char>) -> Option<Seq<char>>
    decreases s.len(),
{
    if s.len() == 0 {
        None
    } else if starts_url(s) {
        Some(s.subrange(0, until_space(s) as int))
    } else {
        first_url_of(s.skip(1))
    }
}

fn starts_url_exec(s: &str) -> (r: bool)
    ensures
        r == starts_url(s@),
{
    let len = s.unicode_len();
    if len >= 7 && s.get_char(0) == 'h' && s.get_char(1) == 't' && s.get_char(2) == 't'
        && s.get_char(3) == 'p' {
        if s.get_char(4) == ':' && s.get_char(5) == '/' && s.get_char(6) == '/' {
            return true;
        }
        if len >= 8 && s.get_char(4) == 's' && s.get_char(5) == ':' && s.get_char(6) == '/'
            && s.get_char(7) == '/' {
            return true;
        }
        return false;
    }
    false
}

/// Finds the first embedded URL of a message body, if any.
pub fn extract_first_url(text: &str) -> (r: Option<String>)
    ensures
        r is Some <==> first_url_of(text@) is Some,
        r is Some ==> r.unwrap()@ == first_url_of(text@).unwrap(),
    decreases text@.len(),
{
    let len = text.unicode_len();
    if len == 0 {
        return None;
    }
    if starts_url_exec(text) {
        let e = first_space(text);
        let url = text.substring_char(0, e).to_owned();
        return Some(url);
    }
    let rest = text.substring_char(1, len);
    proof {
        assert(rest@ =~= text@.skip(1));
    }
    extract_first_url(rest)
}


/// Characters a stored upload name may keep; anything else is replaced.
pub open spec fn is_fname_char(c: char) -> bool {
    ('a' <= c && c <= 'z') || ('A' <= c && c <= 'Z') || ('0' <= c && c <= '9') || c == '.'
        || c == '_' || c == '-'
}

/// One character of a sanitized file name.
pub open spec fn sanitize_char(c: char) -> char {
    if is_fname_char(c) {
        c
    } else {
        '_'
    }
}

/// A file name reduced to ASCII letters, digits, dot, underscore and dash:
/// every other character becomes an underscore, length and positions kept.
pub fn sanitize_filename(name: &str) -> (r: String)
    ensures
        r@ == name@.map_values(|c: char| sanitize_char(c)),
{
    let len = name.unicode_len();
    let mut out = String::new();
    let mut i: usize = 0;
    while i < len
        invariant
            0 <= i <= len,
            len == name@.len(),
            out@ =~= name@.subrange(0, i as int).map_values(|c: char| sanitize_char(c)),
        decreases len - i,
    {
        let c = name.get_char(i);
        if ('a' <= c && c <= 'z') || ('A' <= c && c <= 'Z') || ('0' <= c && c <= '9') || c == '.'
            || c == '_' || c == '-' {
            let piece = name.substring_char(i, i + 1);
            out.append(piece);
        } else {
            proof {
                reveal_strlit("_");
            }
            out.append("_");
        }
        i = i + 1;
        proof {
            assert(out@ =~= name@.subrange(0, i as int).map_values(|c: char| sanitize_char(c)));
        }
    }
    proof {
        assert(name@.subrange(0, len as int) =~= name@);
    }
    out
}

} // verus!
