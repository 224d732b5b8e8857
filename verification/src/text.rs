//! Text normalisation used by indexing, ranking and snippets.

use vstd::prelude::*;

use crate::unicode::{
    chars_of, is_alphanumeric, is_lowercase, is_numeric, is_uppercase, is_whitespace,
    is_whitespace_spec, push_char, string_from_chars, to_lowercase, char_alphanumeric,
    char_lowercase, char_numeric, char_to_lowercase, char_uppercase, is_ascii_char, is_ascii_digit,
    is_ascii_lower, is_ascii_upper,
};

verus! {

// ---------------------------------------------------------------------------
// Specifications
// ---------------------------------------------------------------------------

/// The character sequences held by a sequence of strings.
pub open spec fn strings_view(v: Seq<String>) -> Seq<Seq<char>> {
    v.map_values(|t: String| t@)
}

/// `parts` joined with `sep` between consecutive parts.
pub open spec fn join_spec(parts: Seq<Seq<char>>, sep: Seq<char>) -> Seq<char>
    decreases parts.len(),
{
    if parts.len() == 0 {
        Seq::empty()
    } else if parts.len() == 1 {
        parts[0]
    } else {
        join_spec(parts.drop_last(), sep) + sep + parts.last()
    }
}

/// The token list with the pending token appended when it is not empty.
pub open spec fn flush_spec(tokens: Seq<Seq<char>>, current: Seq<char>) -> Seq<Seq<char>> {
    if current.len() == 0 {
        tokens
    } else {
        tokens.push(current)
    }
}

/// Whether an alphanumeric character `c` starts a new token: it is uppercase, a token is
/// pending, and either the previous character is lowercase or numeric (`fooBar`, `v2Beta`),
/// or it ends an acronym (`HTTPServer`: the `S` before the lowercase `e`).
pub open spec fn splits_before(c: char, prev: Option<char>, pending: bool, next: Option<char>) -> bool {
    &&& char_uppercase(c)
    &&& pending
    &&& match prev {
        Some(p) => char_lowercase(p) || char_numeric(p) || (char_uppercase(p) && match next {
            Some(n) => char_lowercase(n),
            None => false,
        }),
        None => false,
    }
}

/// The tokenizer's state after reading the first `i` characters of `s`:
/// the finished tokens, the pending token and the previous character.
pub open spec fn tokenize_state(s: Seq<char>, i: int) -> (Seq<Seq<char>>, Seq<char>, Option<char>)
    decreases i,
{
    if i <= 0 || i > s.len() {
        (Seq::empty(), Seq::empty(), None)
    } else {
        let (tokens, current, prev) = tokenize_state(s, i - 1);
        let c = s[i - 1];
        if !char_alphanumeric(c) {
            (flush_spec(tokens, current), Seq::empty(), Some(c))
        } else {
            let next = if i < s.len() {
                Some(s[i])
            } else {
                None
            };
            if splits_before(c, prev, current.len() > 0, next) {
                (flush_spec(tokens, current), char_to_lowercase(c), Some(c))
            } else {
                (tokens, current + char_to_lowercase(c), Some(c))
            }
        }
    }
}

/// The tokens of `s`: maximal runs of alphanumeric characters, further split at
/// lower-to-upper case changes and before the last capital of an acronym, lowercased.
pub open spec fn tokenize_spec(s: Seq<char>) -> Seq<Seq<char>> {
    let (tokens, current, _prev) = tokenize_state(s, s.len() as int);
    flush_spec(tokens, current)
}

/// The tokens of `s` joined by single spaces.
pub open spec fn normalize_query_spec(s: Seq<char>) -> Seq<char> {
    join_spec(tokenize_spec(s), seq![' '])
}

/// The maximal runs of non-white-space characters of `s`, in order.
pub open spec fn words_spec(s: Seq<char>) -> Seq<Seq<char>>
    decreases s.len(),
{
    if s.len() == 0 {
        Seq::empty()
    } else {
        let w = words_spec(s.drop_last());
        let c = s.last();
        if is_whitespace_spec(c) {
            w
        } else if s.len() >= 2 && !is_whitespace_spec(s[s.len() - 2]) && w.len() > 0 {
            w.update(w.len() - 1, w.last().push(c))
        } else {
            w.push(seq![c])
        }
    }
}

/// The words of `s` joined by single spaces.
pub open spec fn condense_spec(s: Seq<char>) -> Seq<char> {
    join_spec(words_spec(s), seq![' '])
}

/// `s` unchanged when it has at most `max` characters; otherwise its first `max`
/// characters followed by `...`.
pub open spec fn truncate_spec(s: Seq<char>, max: nat) -> Seq<char> {
    if s.len() <= max {
        s
    } else {
        s.take(max as int) + seq!['.', '.', '.']
    }
}

/// Number of leading white-space characters of `s`.
pub open spec fn leading_ws(s: Seq<char>) -> nat
    decreases s.len(),
{
    if s.len() > 0 && is_whitespace_spec(s[0]) {
        1 + leading_ws(s.drop_first())
    } else {
        0
    }
}

/// Number of trailing white-space characters of `s`.
pub open spec fn trailing_ws(s: Seq<char>) -> nat
    decreases s.len(),
{
    if s.len() > 0 && is_whitespace_spec(s.last()) {
        1 + trailing_ws(s.drop_last())
    } else {
        0
    }
}

/// `s` without leading and trailing white space.
pub open spec fn trim_spec(s: Seq<char>) -> Seq<char> {
    let t = s.skip(leading_ws(s) as int);
    t.take(t.len() - trailing_ws(t))
}

// ---------------------------------------------------------------------------
// Lemmas
// ---------------------------------------------------------------------------

proof fn lemma_words_nonempty_after_word_char(s: Seq<char>)
    requires
        s.len() > 0,
        !is_whitespace_spec(s.last()),
    ensures
        words_spec(s).len() > 0,
{
}

proof fn lemma_join_extend_last(parts: Seq<Seq<char>>, sep: Seq<char>, c: char)
    requires
        parts.len() > 0,
    ensures
        join_spec(parts.update(parts.len() - 1, parts.last().push(c)), sep) == join_spec(parts, sep).push(c),
{
    let q = parts.update(parts.len() - 1, parts.last().push(c));
    if parts.len() == 1 {
    } else {
        assert(q.drop_last() =~= parts.drop_last());
        assert(join_spec(q, sep) == join_spec(q.drop_last(), sep) + sep + q.last());
        assert((join_spec(parts.drop_last(), sep) + sep + parts.last()).push(c) =~= join_spec(
            parts.drop_last(),
            sep,
        ) + sep + parts.last().push(c));
    }
}

proof fn lemma_join_push(parts: Seq<Seq<char>>, sep: Seq<char>, p: Seq<char>)
    ensures
        join_spec(parts.push(p), sep) == if parts.len() == 0 {
            p
        } else {
            join_spec(parts, sep) + sep + p
        },
{
    assert(parts.push(p).drop_last() =~= parts);
}

proof fn lemma_leading_ws_bound(s: Seq<char>)
    ensures
        leading_ws(s) <= s.len(),
        forall|k: int| 0 <= k < leading_ws(s) ==> is_whitespace_spec(#[trigger] s[k]),
        leading_ws(s) < s.len() ==> !is_whitespace_spec(s[leading_ws(s) as int]),
    decreases s.len(),
{
    if s.len() > 0 && is_whitespace_spec(s[0]) {
        lemma_leading_ws_bound(s.drop_first());
        assert forall|k: int| 0 <= k < leading_ws(s) implies is_whitespace_spec(#[trigger] s[k]) by {
            if k > 0 {
                assert(s[k] == s.drop_first()[k - 1]);
            }
        }
    }
}

proof fn lemma_leading_ws_char(s: Seq<char>, k: int)
    requires
        0 <= k <= s.len(),
        forall|j: int| 0 <= j < k ==> is_whitespace_spec(#[trigger] s[j]),
        k == s.len() || !is_whitespace_spec(s[k]),
    ensures
        leading_ws(s) == k,
    decreases k,
{
    if k > 0 {
        assert(is_whitespace_spec(s[0]));
        assert forall|j: int| 0 <= j < k - 1 implies is_whitespace_spec(#[trigger] s.drop_first()[j]) by {
            assert(s.drop_first()[j] == s[j + 1]);
        }
        lemma_leading_ws_char(s.drop_first(), k - 1);
    }
}

proof fn lemma_trailing_ws_char(s: Seq<char>, k: int)
    requires
        0 <= k <= s.len(),
        forall|j: int| s.len() - k <= j < s.len() ==> is_whitespace_spec(#[trigger] s[j]),
        k == s.len() || !is_whitespace_spec(s[s.len() - k - 1]),
    ensures
        trailing_ws(s) == k,
    decreases k,
{
    if k > 0 {
        assert(is_whitespace_spec(s.last()));
        assert forall|j: int| s.drop_last().len() - (k - 1) <= j < s.drop_last().len() implies is_whitespace_spec(
            #[trigger] s.drop_last()[j],
        ) by {
            assert(s.drop_last()[j] == s[j]);
        }
        if k - 1 < s.drop_last().len() {
            assert(s.drop_last()[s.drop_last().len() - (k - 1) - 1] == s[s.len() - k - 1]);
        }
        lemma_trailing_ws_char(s.drop_last(), k - 1);
    } else {
        if s.len() > 0 {
            assert(s.last() == s[s.len() - 0 - 1]);
        }
    }
}

// ---------------------------------------------------------------------------
// Executable functions
// ---------------------------------------------------------------------------

/// Moves the pending token, when it is not empty, to the end of `tokens`.
pub fn flush_token(current_token: &mut String, tokens: &mut Vec<String>)
    ensures
        strings_view(final(tokens)@) == flush_spec(strings_view(old(tokens)@), old(current_token)@),
        final(current_token)@.len() == 0,
{
    if current_token.as_str().is_empty() {
        return;
    }
    let token = current_token.clone();
    tokens.push(token);
    *current_token = String::new();
    proof {
        assert(strings_view(tokens@) =~= strings_view(old(tokens)@).push(old(current_token)@));
    }
}

/// Appends the characters of `extra` to `s`.
fn push_chars(s: &mut String, extra: &Vec<char>)
    ensures
        final(s)@ == old(s)@ + extra@,
{
    let mut i: usize = 0;
    while i < extra.len()
        invariant
            i <= extra.len(),
            s@ == old(s)@ + extra@.take(i as int),
        decreases extra.len() - i,
    {
        push_char(s, extra[i]);
        i = i + 1;
        assert(s@ =~= old(s)@ + extra@.take(i as int));
    }
    assert(extra@.take(extra.len() as int) =~= extra@);
}

/// Splits `text` into lowercase search tokens (see `tokenize_spec`).
pub fn tokenize_text(text: &str) -> (tokens: Vec<String>)
    ensures
        strings_view(tokens@) == tokenize_spec(text@),
{
    let chars = chars_of(text);
    let mut tokens: Vec<String> = Vec::new();
    let mut current_token = String::new();
    let mut previous_character: Option<char> = None;
    let mut i: usize = 0;
    proof {
        assert(strings_view(tokens@) =~= Seq::<Seq<char>>::empty());
    }
    while i < chars.len()
        invariant
            i <= chars.len(),
            chars@ == text@,
            tokenize_state(chars@, i as int) == (strings_view(tokens@), current_token@, previous_character),
        decreases chars.len() - i,
    {
        let character = chars[i];
        let ghost prev_state = tokenize_state(chars@, i as int);
        if !is_alphanumeric(character) {
            flush_token(&mut current_token, &mut tokens);
            previous_character = Some(character);
            i = i + 1;
            proof {
                assert(current_token@ =~= Seq::<char>::empty());
            }
        } else {
            let next_character: Option<char> = if i + 1 < chars.len() {
                Some(chars[i + 1])
            } else {
                None
            };
            let uppercase = is_uppercase(character);
            let pending = !current_token.as_str().is_empty();
            let split = match previous_character {
                Some(p) => uppercase && pending && (is_lowercase(p) || is_numeric(p) || (
                is_uppercase(p) && match next_character {
                    Some(n) => is_lowercase(n),
                    None => false,
                })),
                None => false,
            };
            if split {
                flush_token(&mut current_token, &mut tokens);
            }
            let lowered = to_lowercase(character);
            push_chars(&mut current_token, &lowered);
            previous_character = Some(character);
            i = i + 1;
            proof {
                if split {
                    assert(current_token@ =~= char_to_lowercase(character));
                }
            }
        }
    }
    flush_token(&mut current_token, &mut tokens);
    tokens
}

/// `parts` joined with `separator` between consecutive parts.
pub fn join_strings(parts: &Vec<String>, separator: &str) -> (joined: String)
    ensures
        joined@ == join_spec(strings_view(parts@), separator@),
{
    let mut joined = String::new();
    let mut i: usize = 0;
    while i < parts.len()
        invariant
            i <= parts.len(),
            joined@ == join_spec(strings_view(parts@).take(i as int), separator@),
        decreases parts.len() - i,
    {
        let ghost before = strings_view(parts@).take(i as int);
        proof {
            assert(strings_view(parts@).take(i + 1) =~= before.push(parts@[i as int]@));
            lemma_join_push(before, separator@, parts@[i as int]@);
        }
        if i > 0 {
            joined.append(separator);
        }
        joined.append(parts[i].as_str());
        i = i + 1;
    }
    proof {
        assert(strings_view(parts@).take(parts.len() as int) =~= strings_view(parts@));
    }
    joined
}

/// The tokens of `query` joined by single spaces.
pub fn normalize_query(query: &str) -> (normalized: String)
    ensures
        normalized@ == normalize_query_spec(query@),
{
    let tokens = tokenize_text(query);
    proof {
        reveal_strlit(" ");
        assert(" "@ =~= seq![' ']);
    }
    join_strings(&tokens, " ")
}

/// The white-space separated words of `text` joined by single spaces.
pub fn condense_whitespace(text: &str) -> (condensed: String)
    ensures
        condensed@ == condense_spec(text@),
{
    let chars = chars_of(text);
    let mut condensed = String::new();
    let mut i: usize = 0;
    while i < chars.len()
        invariant
            i <= chars.len(),
            chars@ == text@,
            condensed@ == condense_spec(chars@.take(i as int)),
        decreases chars.len() - i,
    {
        let c = chars[i];
        let ghost prefix = chars@.take(i as int);
        let ghost w = words_spec(prefix);
        proof {
            assert(chars@.take(i + 1).drop_last() =~= prefix);
            assert(chars@.take(i + 1).last() == c);
        }
        if is_whitespace(c) {
        } else if i > 0 && !is_whitespace(chars[i - 1]) {
            proof {
                assert(prefix.last() == chars@[i - 1]);
                lemma_words_nonempty_after_word_char(prefix);
                assert(chars@.take(i + 1)[(i + 1) - 2] == chars@[i - 1]);
                lemma_join_extend_last(w, seq![' '], c);
            }
            push_char(&mut condensed, c);
        } else {
            proof {
                if i > 0 {
                    assert(chars@.take(i + 1)[(i + 1) - 2] == chars@[i - 1]);
                }
                lemma_join_push(w, seq![' '], seq![c]);
            }
            if !condensed.as_str().is_empty() {
                push_char(&mut condensed, ' ');
            } else {
                proof {
                    if w.len() > 0 {
                        lemma_words_parts_nonempty(prefix);
                        lemma_join_nonempty(w, seq![' ']);
                    }
                }
            }
            push_char(&mut condensed, c);
            proof {
                if w.len() > 0 {
                    assert(condensed@ =~= join_spec(w, seq![' ']) + seq![' '] + seq![c]);
                } else {
                    assert(condensed@ =~= seq![c]);
                }
            }
        }
        i = i + 1;
    }
    proof {
        assert(chars@.take(chars.len() as int) =~= chars@);
    }
    condensed
}

proof fn lemma_words_parts_nonempty(s: Seq<char>)
    ensures
        forall|k: int| 0 <= k < words_spec(s).len() ==> #[trigger] words_spec(s)[k].len() > 0,
    decreases s.len(),
{
    if s.len() > 0 {
        lemma_words_parts_nonempty(s.drop_last());
        let w = words_spec(s.drop_last());
        let r = words_spec(s);
        assert forall|k: int| 0 <= k < r.len() implies #[trigger] r[k].len() > 0 by {
            if k < w.len() {
                assert(w[k].len() > 0);
            }
        }
    }
}

proof fn lemma_join_nonempty(parts: Seq<Seq<char>>, sep: Seq<char>)
    requires
        parts.len() > 0,
        forall|k: int| 0 <= k < parts.len() ==> #[trigger] parts[k].len() > 0,
    ensures
        join_spec(parts, sep).len() > 0,
    decreases parts.len(),
{
    if parts.len() > 1 {
        assert(parts.last() == parts[parts.len() - 1]);
    } else {
        assert(parts[0].len() > 0);
    }
}

/// `text` unchanged when it has at most `max_characters` characters; otherwise its first
/// `max_characters` characters followed by `...`.
pub fn truncate_text(text: &str, max_characters: usize) -> (truncated: String)
    ensures
        truncated@ == truncate_spec(text@, max_characters as nat),
{
    let chars = chars_of(text);
    if chars.len() <= max_characters {
        return string_from_chars(&chars);
    }
    let mut truncated = String::new();
    let mut i: usize = 0;
    while i < max_characters
        invariant
            i <= max_characters < chars.len(),
            truncated@ == chars@.take(i as int),
        decreases max_characters - i,
    {
        push_char(&mut truncated, chars[i]);
        i = i + 1;
        assert(truncated@ =~= chars@.take(i as int));
    }
    push_char(&mut truncated, '.');
    push_char(&mut truncated, '.');
    push_char(&mut truncated, '.');
    assert(truncated@ =~= chars@.take(max_characters as int) + seq!['.', '.', '.']);
    truncated
}

/// The characters `chars[start..end]` as a `String`.
pub fn string_from_range(chars: &Vec<char>, start: usize, end: usize) -> (r: String)
    requires
        start <= end <= chars.len(),
    ensures
        r@ == chars@.subrange(start as int, end as int),
{
    let mut r = String::new();
    let mut i: usize = start;
    while i < end
        invariant
            start <= i <= end <= chars.len(),
            r@ == chars@.subrange(start as int, i as int),
        decreases end - i,
    {
        push_char(&mut r, chars[i]);
        i = i + 1;
        assert(r@ =~= chars@.subrange(start as int, i as int));
    }
    r
}

/// `text` without leading and trailing white space.
pub fn trim(text: &str) -> (trimmed: String)
    ensures
        trimmed@ == trim_spec(text@),
{
    let chars = chars_of(text);
    let mut start: usize = 0;
    while start < chars.len() && is_whitespace(chars[start])
        invariant
            start <= chars.len(),
            forall|j: int| 0 <= j < start ==> is_whitespace_spec(#[trigger] chars@[j]),
        decreases chars.len() - start,
    {
        start = start + 1;
    }
    let mut end: usize = chars.len();
    while end > start && is_whitespace(chars[end - 1])
        invariant
            start <= end <= chars.len(),
            forall|j: int| end <= j < chars.len() ==> is_whitespace_spec(#[trigger] chars@[j]),
        decreases end,
    {
        end = end - 1;
    }
    proof {
        let s = text@;
        lemma_leading_ws_char(s, start as int);
        let t = s.skip(start as int);
        let k = chars.len() - end;
        assert forall|j: int| t.len() - k <= j < t.len() implies is_whitespace_spec(#[trigger] t[j]) by {
            assert(t[j] == s[j + start]);
        }
        if k < t.len() {
            assert(t[t.len() - k - 1] == s[end - 1]);
        }
        lemma_trailing_ws_char(t, k as int);
        assert(t.take(t.len() - k) =~= s.subrange(start as int, end as int));
    }
    string_from_range(&chars, start, end)
}

} // verus!

verus! {

// ---------------------------------------------------------------------------
// Laws
// ---------------------------------------------------------------------------

/// The lowercase forms of the alphanumeric characters of `s`, in order.
pub open spec fn lowered_alphanumerics(s: Seq<char>) -> Seq<char>
    decreases s.len(),
{
    if s.len() == 0 {
        Seq::empty()
    } else if char_alphanumeric(s.last()) {
        lowered_alphanumerics(s.drop_last()) + char_to_lowercase(s.last())
    } else {
        lowered_alphanumerics(s.drop_last())
    }
}

/// The parts concatenated in order.
pub open spec fn concat_spec(parts: Seq<Seq<char>>) -> Seq<char>
    decreases parts.len(),
{
    if parts.len() == 0 {
        Seq::empty()
    } else {
        concat_spec(parts.drop_last()) + parts.last()
    }
}

proof fn lemma_concat_flush(tokens: Seq<Seq<char>>, current: Seq<char>)
    ensures
        concat_spec(flush_spec(tokens, current)) == concat_spec(tokens) + current,
{
    if current.len() == 0 {
        assert(concat_spec(tokens) + current =~= concat_spec(tokens));
    } else {
        assert(tokens.push(current).drop_last() =~= tokens);
    }
}

proof fn lemma_tokenize_state(s: Seq<char>, i: int)
    requires
        0 <= i <= s.len(),
    ensures
        ({
            let (tokens, current, _prev) = tokenize_state(s, i);
            &&& forall|k: int| 0 <= k < tokens.len() ==> #[trigger] tokens[k].len() > 0
            &&& concat_spec(tokens) + current == lowered_alphanumerics(s.take(i))
        }),
    decreases i,
{
    if i == 0 {
        assert(s.take(0) =~= Seq::<char>::empty());
        assert(concat_spec(Seq::<Seq<char>>::empty()) + Seq::<char>::empty() =~= Seq::<char>::empty());
    } else {
        lemma_tokenize_state(s, i - 1);
        let (tokens, current, prev) = tokenize_state(s, i - 1);
        let c = s[i - 1];
        assert(s.take(i).drop_last() =~= s.take(i - 1));
        assert(s.take(i).last() == c);
        lemma_concat_flush(tokens, current);
        let f = flush_spec(tokens, current);
        assert forall|k: int| 0 <= k < f.len() implies #[trigger] f[k].len() > 0 by {
            if k < tokens.len() {
                assert(tokens[k].len() > 0);
            }
        }
        if !char_alphanumeric(c) {
            assert(concat_spec(f) + Seq::<char>::empty() =~= concat_spec(f));
        } else {
            let low = char_to_lowercase(c);
            assert(concat_spec(f) + low =~= concat_spec(tokens) + current + low);
            assert(concat_spec(tokens) + (current + low) =~= concat_spec(tokens) + current + low);
        }
    }
}

/// Tokenizing never yields an empty token, and the tokens, concatenated, are exactly the
/// lowercase forms of the input's alphanumeric characters: splitting drops and adds nothing.
pub proof fn law_tokens_cover_alphanumerics(s: Seq<char>)
    ensures
        forall|k: int|
            0 <= k < tokenize_spec(s).len() ==> #[trigger] tokenize_spec(s)[k].len() > 0,
        concat_spec(tokenize_spec(s)) == lowered_alphanumerics(s),
{
    lemma_tokenize_state(s, s.len() as int);
    let (tokens, current, _prev) = tokenize_state(s, s.len() as int);
    lemma_concat_flush(tokens, current);
    assert(s.take(s.len() as int) =~= s);
    let f = flush_spec(tokens, current);
    assert forall|k: int| 0 <= k < f.len() implies #[trigger] f[k].len() > 0 by {
        if k < tokens.len() {
            assert(tokens[k].len() > 0);
        }
    }
}

/// Every part is non-empty and holds no white space.
pub open spec fn plain_words(w: Seq<Seq<char>>) -> bool {
    &&& forall|k: int| 0 <= k < w.len() ==> #[trigger] w[k].len() > 0
    &&& forall|k: int, j: int|
        0 <= k < w.len() && 0 <= j < w[k].len() ==> !is_whitespace_spec(#[trigger] w[k][j])
}

proof fn lemma_words_plain(s: Seq<char>)
    ensures
        plain_words(words_spec(s)),
        forall|k: int| 0 <= k < words_spec(s).len() ==> #[trigger] words_spec(s)[k].len() > 0,
    decreases s.len(),
{
    lemma_words_parts_nonempty(s);
    if s.len() > 0 {
        lemma_words_plain(s.drop_last());
        let w = words_spec(s.drop_last());
        let r = words_spec(s);
        assert forall|k: int, j: int| 0 <= k < r.len() && 0 <= j < r[k].len() implies !is_whitespace_spec(#[trigger] r[k][j]) by {
            if k < w.len() && !(r.len() == w.len() && k == w.len() - 1 && r[k] != w[k]) {
                if r[k] == w[k] {
                    assert(!is_whitespace_spec(w[k][j]));
                }
            }
            if r.len() == w.len() && k == w.len() - 1 && r[k] != w[k] {
                if j < w[k].len() {
                    assert(r[k][j] == w[k][j]);
                    assert(!is_whitespace_spec(w[k][j]));
                }
            }
        }
    }
}

proof fn lemma_words_trailing_space(x: Seq<char>)
    ensures
        words_spec(x.push(' ')) == words_spec(x),
{
    assert(x.push(' ').drop_last() =~= x);
}

proof fn lemma_words_append_word(x: Seq<char>, y: Seq<char>)
    requires
        x.len() == 0 || is_whitespace_spec(x.last()),
        y.len() > 0,
        forall|j: int| 0 <= j < y.len() ==> !is_whitespace_spec(#[trigger] y[j]),
    ensures
        words_spec(x + y) == words_spec(x).push(y),
    decreases y.len(),
{
    let xy = x + y;
    if y.len() == 1 {
        assert(xy.drop_last() =~= x);
        assert(xy.last() == y[0]);
        if xy.len() >= 2 {
            assert(xy[xy.len() - 2] == x.last());
        }
        assert(seq![y[0]] =~= y);
    } else {
        let y1 = y.drop_last();
        assert forall|j: int| 0 <= j < y1.len() implies !is_whitespace_spec(#[trigger] y1[j]) by {
            assert(y1[j] == y[j]);
        }
        lemma_words_append_word(x, y1);
        assert(xy.drop_last() =~= x + y1);
        assert(xy.last() == y.last());
        assert(xy[xy.len() - 2] == y[y.len() - 2]);
        assert(!is_whitespace_spec(y[y.len() - 1]));
        assert(!is_whitespace_spec(y[y.len() - 2]));
        let w = words_spec(x).push(y1);
        assert(y1.push(y.last()) =~= y);
        assert(w.last() == y1);
        assert(w.update(w.len() - 1, w.last().push(y.last())) =~= words_spec(x).push(y));
    }
}

proof fn lemma_words_of_join(w: Seq<Seq<char>>)
    requires
        plain_words(w),
    ensures
        words_spec(join_spec(w, seq![' '])) == w,
    decreases w.len(),
{
    if w.len() == 0 {
    } else {
        let last = w.last();
        assert forall|j: int| 0 <= j < last.len() implies !is_whitespace_spec(#[trigger] last[j]) by {
            assert(last[j] == w[w.len() - 1][j]);
        }
        assert(last.len() > 0) by {
            assert(w[w.len() - 1].len() > 0);
        }
        if w.len() == 1 {
            lemma_words_append_word(Seq::empty(), last);
            assert(Seq::<char>::empty() + last =~= last);
            assert(Seq::<Seq<char>>::empty().push(last) =~= w);
        } else {
            let rest = w.drop_last();
            assert(plain_words(rest)) by {
                assert forall|k: int| 0 <= k < rest.len() implies #[trigger] rest[k].len() > 0 by {
                    assert(rest[k] == w[k]);
                }
                assert forall|k: int, j: int| 0 <= k < rest.len() && 0 <= j < rest[k].len() implies !is_whitespace_spec(#[trigger] rest[k][j]) by {
                    assert(rest[k] == w[k]);
                }
            }
            lemma_words_of_join(rest);
            let x = join_spec(rest, seq![' ']).push(' ');
            lemma_words_trailing_space(join_spec(rest, seq![' ']));
            lemma_words_append_word(x, last);
            assert(join_spec(rest, seq![' ']) + seq![' '] + last =~= x + last);
            assert(rest.push(last) =~= w);
        }
    }
}

/// Condensing white space is idempotent: a condensed text is its own condensed form.
pub proof fn law_condense_idempotent(s: Seq<char>)
    ensures
        condense_spec(condense_spec(s)) == condense_spec(s),
{
    lemma_words_plain(s);
    lemma_words_of_join(words_spec(s));
}

/// Every character of `s` is an ASCII character.
pub open spec fn is_ascii_text(s: Seq<char>) -> bool {
    forall|j: int| 0 <= j < s.len() ==> is_ascii_char(#[trigger] s[j])
}

/// `c` is a small ASCII letter or an ASCII digit: what tokens of ASCII text are made of.
pub open spec fn is_token_char(c: char) -> bool {
    is_ascii_lower(c) || is_ascii_digit(c)
}

/// Every part is non-empty and made of small ASCII letters and digits.
pub open spec fn plain_tokens(w: Seq<Seq<char>>) -> bool {
    &&& forall|k: int| 0 <= k < w.len() ==> #[trigger] w[k].len() > 0
    &&& forall|k: int, j: int| 0 <= k < w.len() && 0 <= j < w[k].len() ==> is_token_char(#[trigger] w[k][j])
}

proof fn lemma_token_char(c: char)
    requires
        is_token_char(c),
    ensures
        char_alphanumeric(c),
        !char_uppercase(c),
        char_to_lowercase(c) == seq![c],
{
}

proof fn lemma_lowered_ascii(c: char)
    requires
        is_ascii_char(c),
        char_alphanumeric(c),
    ensures
        char_to_lowercase(c).len() == 1,
        is_token_char(char_to_lowercase(c)[0]),
{
    if is_ascii_upper(c) {
        let d = ((c as u32) + 0x20) as char;
        assert(d as u32 == (c as u32) + 0x20);
    }
}

proof fn lemma_ascii_tokens_plain(s: Seq<char>, i: int)
    requires
        is_ascii_text(s),
        0 <= i <= s.len(),
    ensures
        ({
            let (tokens, current, _prev) = tokenize_state(s, i);
            &&& plain_tokens(tokens)
            &&& forall|j: int| 0 <= j < current.len() ==> is_token_char(#[trigger] current[j])
        }),
    decreases i,
{
    if i > 0 {
        lemma_ascii_tokens_plain(s, i - 1);
        let (tokens, current, prev) = tokenize_state(s, i - 1);
        let c = s[i - 1];
        assert(is_ascii_char(c));
        let f = flush_spec(tokens, current);
        assert(plain_tokens(f)) by {
            assert forall|k: int| 0 <= k < f.len() implies #[trigger] f[k].len() > 0 by {
                if k < tokens.len() {
                    assert(tokens[k].len() > 0);
                }
            }
            assert forall|k: int, j: int| 0 <= k < f.len() && 0 <= j < f[k].len() implies is_token_char(
                #[trigger] f[k][j],
            ) by {
                if k < tokens.len() {
                    assert(is_token_char(tokens[k][j]));
                } else {
                    assert(f[k] == current);
                }
            }
        }
        if char_alphanumeric(c) {
            lemma_lowered_ascii(c);
            let low = char_to_lowercase(c);
            assert forall|j: int| 0 <= j < low.len() implies is_token_char(#[trigger] low[j]) by {}
            let joined = current + low;
            assert forall|j: int| 0 <= j < joined.len() implies is_token_char(#[trigger] joined[j]) by {
                if j < current.len() {
                    assert(joined[j] == current[j]);
                } else {
                    assert(joined[j] == low[j - current.len()]);
                }
            }
        }
    }
}

/// Reading characters that never start a new token gives the same state whatever follows.
proof fn lemma_state_of_prefix(a: Seq<char>, b: Seq<char>, i: int)
    requires
        0 <= i <= a.len(),
        i <= b.len(),
        a.take(i) == b.take(i),
        forall|k: int| 0 <= k < i ==> !char_uppercase(#[trigger] a[k]),
    ensures
        tokenize_state(a, i) == tokenize_state(b, i),
    decreases i,
{
    if i > 0 {
        assert(a.take(i - 1) =~= a.take(i).take(i - 1));
        assert(b.take(i - 1) =~= b.take(i).take(i - 1));
        lemma_state_of_prefix(a, b, i - 1);
        assert(a[i - 1] == a.take(i)[i - 1]);
        assert(b[i - 1] == b.take(i)[i - 1]);
    }
}

/// Reading the token characters `y[n..n + m]` extends the pending token by them.
proof fn lemma_read_token_chars(y: Seq<char>, n: int, m: int)
    requires
        0 <= n,
        0 <= m,
        n + m <= y.len(),
        forall|j: int| n <= j < n + m ==> is_token_char(#[trigger] y[j]),
    ensures
        m > 0 ==> tokenize_state(y, n + m) == (
            tokenize_state(y, n).0,
            tokenize_state(y, n).1 + y.subrange(n, n + m),
            Some(y[n + m - 1]),
        ),
    decreases m,
{
    if m > 0 {
        let c = y[n + m - 1];
        lemma_token_char(c);
        if m > 1 {
            lemma_read_token_chars(y, n, m - 1);
            assert(tokenize_state(y, n).1 + y.subrange(n, n + m - 1) + seq![c] =~= tokenize_state(y, n).1
                + y.subrange(n, n + m));
        } else {
            assert(y.subrange(n, n + 1) =~= seq![c]);
        }
    }
}

/// Every character of `join_spec(w, " ")` is a token character or the space.
proof fn lemma_join_chars(w: Seq<Seq<char>>)
    requires
        plain_tokens(w),
    ensures
        forall|j: int|
            0 <= j < join_spec(w, seq![' ']).len() ==> is_token_char(#[trigger] join_spec(w, seq![' '])[j])
                || join_spec(w, seq![' '])[j] == ' ',
    decreases w.len(),
{
    if w.len() > 1 {
        let rest = w.drop_last();
        assert(plain_tokens(rest)) by {
            assert forall|k: int| 0 <= k < rest.len() implies #[trigger] rest[k].len() > 0 by {
                assert(rest[k] == w[k]);
            }
            assert forall|k: int, j: int| 0 <= k < rest.len() && 0 <= j < rest[k].len() implies is_token_char(
                #[trigger] rest[k][j],
            ) by {
                assert(rest[k] == w[k]);
            }
        }
        lemma_join_chars(rest);
        let x = join_spec(rest, seq![' ']);
        let t = w.last();
        let y = join_spec(w, seq![' ']);
        assert(y == x + seq![' '] + t);
        assert forall|j: int| 0 <= j < y.len() implies is_token_char(#[trigger] y[j]) || y[j] == ' ' by {
            if j < x.len() {
                assert(y[j] == x[j]);
            } else if j > x.len() {
                assert(y[j] == t[j - x.len() - 1]);
                assert(is_token_char(w[w.len() - 1][j - x.len() - 1]));
            }
        }
    } else if w.len() == 1 {
        assert forall|j: int| 0 <= j < join_spec(w, seq![' ']).len() implies is_token_char(
            #[trigger] join_spec(w, seq![' '])[j],
        ) by {
            assert(is_token_char(w[0][j]));
        }
    }
}

/// Reading `join_spec(w, " ")` leaves all but the last part finished and the last pending.
proof fn lemma_state_of_join(w: Seq<Seq<char>>)
    requires
        plain_tokens(w),
        w.len() > 0,
    ensures
        ({
            let y = join_spec(w, seq![' ']);
            let (tokens, current, _prev) = tokenize_state(y, y.len() as int);
            tokens == w.drop_last() && current == w.last()
        }),
    decreases w.len(),
{
    let y = join_spec(w, seq![' ']);
    lemma_join_chars(w);
    let t = w.last();
    assert(t.len() > 0) by {
        assert(w[w.len() - 1].len() > 0);
    }
    if w.len() == 1 {
        assert forall|j: int| 0 <= j < y.len() implies is_token_char(#[trigger] y[j]) by {
            assert(is_token_char(w[0][j]));
        }
        lemma_read_token_chars(y, 0, y.len() as int);
        assert(Seq::<char>::empty() + y.subrange(0, y.len() as int) =~= w.last());
        assert(w.drop_last() =~= Seq::<Seq<char>>::empty());
    } else {
        let rest = w.drop_last();
        assert(plain_tokens(rest)) by {
            assert forall|k: int| 0 <= k < rest.len() implies #[trigger] rest[k].len() > 0 by {
                assert(rest[k] == w[k]);
            }
            assert forall|k: int, j: int| 0 <= k < rest.len() && 0 <= j < rest[k].len() implies is_token_char(
                #[trigger] rest[k][j],
            ) by {
                assert(rest[k] == w[k]);
            }
        }
        lemma_state_of_join(rest);
        let x = join_spec(rest, seq![' ']);
        let n = x.len() as int;
        assert(y == x + seq![' '] + t);
        assert(y.take(n) =~= x.take(n));
        assert forall|k: int| 0 <= k < n implies !char_uppercase(#[trigger] y[k]) by {
            assert(y[k] == x[k]);
            if is_token_char(y[k]) {
                lemma_token_char(y[k]);
            }
        }
        lemma_state_of_prefix(y, x, n);
        assert(x.take(n) =~= x);
        let (tokens, current, _prev) = tokenize_state(x, n);
        assert(rest.last().len() > 0) by {
            assert(rest[rest.len() - 1].len() > 0);
        }
        assert(y[n] == ' ');
        assert(flush_spec(tokens, current) =~= rest);
        assert(tokenize_state(y, n + 1) == (rest, Seq::<char>::empty(), Some(' ')));
        assert forall|j: int| n + 1 <= j < n + 1 + t.len() implies is_token_char(#[trigger] y[j]) by {
            assert(y[j] == t[j - n - 1]);
            assert(is_token_char(w[w.len() - 1][j - n - 1]));
        }
        lemma_read_token_chars(y, n + 1, t.len() as int);
        assert(Seq::<char>::empty() + y.subrange(n + 1, n + 1 + t.len()) =~= t);
    }
}

/// For ASCII text, tokenizing the normalized form gives back the same tokens: the tokens
/// joined by spaces tokenize to themselves, so normalizing twice is normalizing once.
pub proof fn law_tokenize_idempotent_ascii(s: Seq<char>)
    requires
        is_ascii_text(s),
    ensures
        tokenize_spec(normalize_query_spec(s)) == tokenize_spec(s),
        normalize_query_spec(normalize_query_spec(s)) == normalize_query_spec(s),
{
    let w = tokenize_spec(s);
    lemma_ascii_tokens_plain(s, s.len() as int);
    let (tokens, current, _prev) = tokenize_state(s, s.len() as int);
    assert(plain_tokens(w)) by {
        assert forall|k: int| 0 <= k < w.len() implies #[trigger] w[k].len() > 0 by {
            if k < tokens.len() {
                assert(tokens[k].len() > 0);
            }
        }
        assert forall|k: int, j: int| 0 <= k < w.len() && 0 <= j < w[k].len() implies is_token_char(
            #[trigger] w[k][j],
        ) by {
            if k < tokens.len() {
                assert(is_token_char(tokens[k][j]));
            } else {
                assert(w[k] == current);
            }
        }
    }
    if w.len() == 0 {
        assert(join_spec(w, seq![' ']) =~= Seq::<char>::empty());
    } else {
        lemma_state_of_join(w);
        let y = join_spec(w, seq![' ']);
        let (t2, c2, _p2) = tokenize_state(y, y.len() as int);
        assert(w.last().len() > 0) by {
            assert(w[w.len() - 1].len() > 0);
        }
        assert(flush_spec(t2, c2) =~= w);
    }
}

/// Normalized ASCII text is already condensed: its tokens are non-empty and hold no white
/// space, and single spaces join them.
pub proof fn law_normalized_ascii_is_condensed(s: Seq<char>)
    requires
        is_ascii_text(s),
    ensures
        condense_spec(normalize_query_spec(s)) == normalize_query_spec(s),
{
    let w = tokenize_spec(s);
    lemma_ascii_tokens_plain(s, s.len() as int);
    let (tokens, current, _prev) = tokenize_state(s, s.len() as int);
    assert(plain_words(w)) by {
        assert forall|k: int| 0 <= k < w.len() implies #[trigger] w[k].len() > 0 by {
            if k < tokens.len() {
                assert(tokens[k].len() > 0);
            }
        }
        assert forall|k: int, j: int| 0 <= k < w.len() && 0 <= j < w[k].len() implies !is_whitespace_spec(
            #[trigger] w[k][j],
        ) by {
            if k < tokens.len() {
                assert(is_token_char(tokens[k][j]));
            } else {
                assert(w[k] == current);
                assert(is_token_char(current[j]));
            }
        }
    }
    lemma_words_of_join(w);
}

} // verus!
