use vstd::prelude::*;
use vstd::string::StringSliceAdditionalSpecFns;
use vstd::utf8::*;

use crate::strmap::StrMap;

verus! {

broadcast use encode_utf8_valid_utf8, encode_utf8_decode_utf8;

/// The spans (start and end byte offsets) of the matches that the `regex`
/// crate finds for `pattern` in `haystack`, or `None` when the pattern does
/// not compile.
pub uninterp spec fn regex_match_spans(pattern: Seq<char>, haystack: Seq<char>) -> Option<
    Seq<(usize, usize)>,
>;

/// Spans that lie in `bytes` in order: each starts no later than it ends,
/// ends within `bytes`, starts and ends on character boundaries, and each
/// later one starts no earlier than it ends.
pub open spec fn spans_well_placed(bytes: Seq<u8>, spans: Seq<(usize, usize)>) -> bool {
    &&& forall|i: int|
        #![trigger spans[i]]
        0 <= i < spans.len() ==> {
            &&& spans[i].0 <= spans[i].1 <= bytes.len()
            &&& is_char_boundary(bytes, spans[i].0 as int)
            &&& is_char_boundary(bytes, spans[i].1 as int)
        }
    &&& forall|i: int, j: int|
        #![trigger spans[i], spans[j]]
        0 <= i < j < spans.len() ==> spans[i].1 <= spans[j].0
}

/// A character that `\w` matches among the ASCII ones: a letter, a digit or
/// `_`.
pub open spec fn is_ascii_word_char(c: char) -> bool {
    ('a' <= c <= 'z') || ('A' <= c <= 'Z') || ('0' <= c <= '9') || c == '_'
}

/// `text` starts with a reference that ends at `k`: a `$`, then ASCII word
/// characters up to `k`, then, where anything follows, an ASCII character that
/// is not a word character; no `$` comes after the reference.
pub open spec fn lone_leading_ref(text: Seq<char>, k: int) -> bool {
    &&& 2 <= k <= text.len()
    &&& text[0] == '$'
    &&& forall|i: int| 1 <= i < k ==> is_ascii_word_char(#[trigger] text[i])
    &&& k < text.len() ==> (text[k] <= '\u{7f}' && !is_ascii_word_char(text[k]))
    &&& forall|i: int| k <= i < text.len() ==> #[trigger] text[i] != '$'
}

/// Compiles `pattern` with `regex::Regex::new` and, when it compiles, collects
/// the start and end offsets of the matches that `regex::Regex::find_iter`
/// yields on `haystack`. Claimed, as the crate documents it: the result is a
/// function of the two strings; the matches come in order and do not overlap;
/// `Match::start() <= Match::end()`; both offsets fall on character boundaries
/// of the haystack. Of the pattern `\$\w+` one case is stated: the search is
/// leftmost-first and `+` is greedy, and every match starts with a `$`, so a
/// haystack that opens with `$` and word characters and holds no other `$`
/// has exactly one match, over the `$` and all the word characters after it.
/// Which substrings match in general is left to the named result.
#[verifier::external_body]
fn regex_find_spans(pattern: &str, haystack: &str) -> (r: Option<Vec<(usize, usize)>>)
    ensures
        r is Some <==> regex_match_spans(pattern@, haystack@) is Some,
        r matches Some(v) ==> v@ == regex_match_spans(pattern@, haystack@)->0 && spans_well_placed(
            haystack.spec_bytes(),
            v@,
        ),
        forall|k: int|
            pattern@ == "\\$\\w+"@ && #[trigger] lone_leading_ref(haystack@, k) ==> (r is Some
                && r->0@ == seq![(0usize, k as usize)]),
{
    match regex::Regex::new(pattern) {
        Ok(re) => Some(re.find_iter(haystack).map(|m| (m.start(), m.end())).collect()),
        Err(_) => None,
    }
}

/// Calls `String::from_utf8`, which hands back the string exactly when the
/// bytes are valid UTF-8; its characters are then the decoded bytes.
#[verifier::external_body]
fn string_from_utf8(bytes: Vec<u8>) -> (r: Option<String>)
    ensures
        r is Some <==> valid_utf8(bytes@),
        r matches Some(s) ==> s@ == decode_utf8(bytes@),
{
    String::from_utf8(bytes).ok()
}

/// The pattern of a reference to an environment variable: `$` followed by
/// word characters.
pub open spec fn env_var_pattern() -> Seq<char> {
    "\\$\\w+"@
}

/// The spans of the environment variable references in `input`.
pub open spec fn env_var_spans(input: Seq<char>) -> Seq<(usize, usize)> {
    match regex_match_spans(env_var_pattern(), input) {
        Some(spans) => spans,
        None => Seq::empty(),
    }
}

/// The name that a reference spells: its bytes after the leading `$`.
pub open spec fn span_name(bytes: Seq<u8>, span: (usize, usize)) -> Seq<u8> {
    if span.0 < span.1 && bytes[span.0 as int] == 0x24u8 {
        bytes.subrange(span.0 + 1, span.1 as int)
    } else {
        Seq::empty()
    }
}

/// The bytes that replace a reference to `name`: the value of the variable,
/// or nothing when it is not set.
pub open spec fn env_value_bytes(env: Map<Seq<char>, String>, name: Seq<u8>) -> Seq<u8> {
    let key = decode_utf8(name);
    if env.contains_key(key) {
        encode_utf8(env[key]@)
    } else {
        Seq::empty()
    }
}

/// Where the text after the first `k` references starts.
pub open spec fn end_before(spans: Seq<(usize, usize)>, k: int) -> int {
    if k <= 0 {
        0
    } else {
        spans[k - 1].1 as int
    }
}

/// The output for the first `k` references: each is preceded by the text
/// between it and the previous reference, and replaced by its value.
pub open spec fn substituted_prefix(
    bytes: Seq<u8>,
    spans: Seq<(usize, usize)>,
    env: Map<Seq<char>, String>,
    k: nat,
) -> Seq<u8>
    decreases k,
{
    if k == 0 {
        Seq::empty()
    } else {
        substituted_prefix(bytes, spans, env, (k - 1) as nat) + bytes.subrange(
            end_before(spans, k - 1),
            spans[k - 1].0 as int,
        ) + env_value_bytes(env, span_name(bytes, spans[k - 1]))
    }
}

/// The bytes with every reference replaced, followed by the text after the
/// last reference.
pub open spec fn substitute_env_refs(
    bytes: Seq<u8>,
    spans: Seq<(usize, usize)>,
    env: Map<Seq<char>, String>,
) -> Seq<u8> {
    substituted_prefix(bytes, spans, env, spans.len()) + bytes.subrange(
        end_before(spans, spans.len() as int),
        bytes.len() as int,
    )
}

/// `input` with each environment variable reference replaced by the value of
/// the variable in `env` (the empty string where it is unset).
pub open spec fn spec_resolve_env_vars(input: Seq<char>, env: Map<Seq<char>, String>) -> Seq<
    char,
> {
    decode_utf8(substitute_env_refs(encode_utf8(input), env_var_spans(input), env))
}

/// A piece of valid UTF-8 between two character boundaries is valid UTF-8.
proof fn lemma_valid_utf8_between(bytes: Seq<u8>, a: int, b: int)
    requires
        valid_utf8(bytes),
        0 <= a <= b <= bytes.len(),
        is_char_boundary(bytes, a),
        is_char_boundary(bytes, b),
    ensures
        valid_utf8(bytes.subrange(a, b)),
{
    valid_utf8_split(bytes, a);
    let t = bytes.subrange(a, bytes.len() as int);
    if b == bytes.len() {
        assert(t =~= bytes.subrange(a, b));
    } else {
        is_char_boundary_iff_not_is_continuation_byte(bytes, b);
        assert(t[b - a] == bytes[b]);
        is_char_boundary_iff_not_is_continuation_byte(t, b - a);
        valid_utf8_split(t, b - a);
        assert(t.subrange(0, b - a) =~= bytes.subrange(a, b));
    }
}

/// Dropping a leading `$` from valid UTF-8 leaves valid UTF-8.
proof fn lemma_valid_utf8_drop_dollar(s: Seq<u8>)
    requires
        valid_utf8(s),
        s.len() > 0,
        s[0] == 0x24u8,
    ensures
        valid_utf8(s.subrange(1, s.len() as int)),
{
    assert(pop_first_scalar(s) =~= s.subrange(1, s.len() as int));
}

/// Appends `src[lo..hi]` to `out`.
fn push_range(out: &mut Vec<u8>, src: &[u8], lo: usize, hi: usize)
    requires
        lo <= hi <= src@.len(),
    ensures
        final(out)@ == old(out)@ + src@.subrange(lo as int, hi as int),
{
    let mut j = lo;
    while j < hi
        invariant
            lo <= j <= hi,
            hi <= src@.len(),
            out@ == old(out)@ + src@.subrange(lo as int, j as int),
        decreases hi - j,
    {
        out.push(src[j]);
        assert(src@.subrange(lo as int, j + 1) =~= src@.subrange(lo as int, j as int).push(
            src@[j as int],
        ));
        j = j + 1;
    }
}

/// Replaces each reference of `spans` in `input` (a `$` and the name after
/// it) by the value of that variable in `env`, nothing when it is not set,
/// and keeps the text around the references.
pub fn substitute_env_vars(input: &String, spans: &Vec<(usize, usize)>, env: &StrMap<String>) -> (output:
    String)
    requires
        env.wf(),
        spans_well_placed(encode_utf8(input@), spans@),
    ensures
        output@ == decode_utf8(substitute_env_refs(encode_utf8(input@), spans@, env.view())),
{
    let bytes: &[u8] = input.as_str().as_bytes();
    let ghost b = bytes@;
    assert(b == encode_utf8(input@));
    proof {
        is_char_boundary_start_end_of_seq(b);
    }
    let mut out: Vec<u8> = Vec::new();
    let mut pos: usize = 0;
    let n = spans.len();
    let mut k: usize = 0;
    while k < n
        invariant
            b == bytes@,
            valid_utf8(b),
            n == spans@.len(),
            spans_well_placed(b, spans@),
            env.wf(),
            k <= n,
            pos as int == end_before(spans@, k as int),
            pos <= b.len(),
            is_char_boundary(b, pos as int),
            out@ == substituted_prefix(b, spans@, env.view(), k as nat),
            valid_utf8(out@),
        decreases n - k,
    {
        let (start, end) = spans[k];
        assert(spans@[k as int] == (start, end));
        assert(pos <= start) by {
            if k > 0 {
                assert(spans@[k - 1].1 <= spans@[k as int].0);
            }
        }
        // The text before the reference.
        let ghost before = out@;
        push_range(&mut out, bytes, pos, start);
        proof {
            lemma_valid_utf8_between(b, pos as int, start as int);
            valid_utf8_concat(before, b.subrange(pos as int, start as int));
        }
        // The name after the `$`.
        let mut name_bytes: Vec<u8> = Vec::new();
        if start < end && bytes[start] == 0x24u8 {
            push_range(&mut name_bytes, bytes, start + 1, end);
            proof {
                lemma_valid_utf8_between(b, start as int, end as int);
                let s = b.subrange(start as int, end as int);
                lemma_valid_utf8_drop_dollar(s);
                assert(s.subrange(1, s.len() as int) =~= b.subrange(start + 1, end as int));
            }
        }
        assert(name_bytes@ =~= span_name(b, spans@[k as int]));
        // The value of the variable, if it is set.
        let ghost middle = out@;
        match string_from_utf8(name_bytes) {
            Some(name) => {
                match env.get(&name) {
                    Some(value) => {
                        let vb: &[u8] = value.as_str().as_bytes();
                        push_range(&mut out, vb, 0, vb.len());
                        assert(vb@.subrange(0, vb@.len() as int) =~= vb@);
                        proof {
                            valid_utf8_concat(middle, vb@);
                        }
                    },
                    None => {
                        assert(out@ =~= middle + Seq::<u8>::empty());
                    },
                }
            },
            None => {
                assert(false);
            },
        }
        pos = end;
        k = k + 1;
    }
    // The text after the last reference.
    let ghost before = out@;
    push_range(&mut out, bytes, pos, bytes.len());
    proof {
        lemma_valid_utf8_between(b, pos as int, b.len() as int);
        valid_utf8_concat(before, b.subrange(pos as int, b.len() as int));
    }
    assert(out@ == substitute_env_refs(b, spans@, env.view()));
    match string_from_utf8(out) {
        Some(s) => s,
        None => {
            assert(false);
            String::new()
        },
    }
}

/// The text of the variable `name` in `env`, empty when it is not set.
pub open spec fn env_text(env: Map<Seq<char>, String>, name: Seq<char>) -> Seq<char> {
    if env.contains_key(name) {
        env[name]@
    } else {
        Seq::empty()
    }
}

/// Encoding a concatenation encodes each part in turn.
proof fn lemma_encode_utf8_concat(a: Seq<char>, b: Seq<char>)
    ensures
        encode_utf8(a + b) == encode_utf8(a) + encode_utf8(b),
    decreases a.len(),
{
    if a.len() == 0 {
        assert(a + b =~= b);
        assert(encode_utf8(a) + encode_utf8(b) =~= encode_utf8(b));
    } else {
        lemma_encode_utf8_concat(a.drop_first(), b);
        assert((a + b).drop_first() =~= a.drop_first() + b);
        assert((a + b)[0] == a[0]);
        assert(encode_utf8(a + b) =~= encode_utf8(a) + encode_utf8(b));
    }
}

/// No character comes before `'\0'`.
proof fn lemma_char_at_least_nul(c: char)
    ensures
        '\0' <= c,
{
}

/// Each character takes at least one byte.
proof fn lemma_encode_utf8_len(text: Seq<char>)
    ensures
        text.len() <= encode_utf8(text).len(),
    decreases text.len(),
{
    if text.len() > 0 {
        lemma_encode_utf8_len(text.drop_first());
    }
}

/// When the first `hi` characters of `text` are ASCII, its encoding starts
/// with one byte for each of them, of the same value, and goes on with the
/// encoding of the rest.
proof fn lemma_ascii_prefix_bytes(text: Seq<char>, hi: int)
    requires
        0 <= hi <= text.len(),
        forall|i: int| 0 <= i < hi ==> #[trigger] text[i] <= '\u{7f}',
    ensures
        encode_utf8(text) == encode_utf8(text.subrange(0, hi)) + encode_utf8(
            text.subrange(hi, text.len() as int),
        ),
        encode_utf8(text.subrange(0, hi)).len() == hi,
        forall|i: int|
            0 <= i < hi ==> #[trigger] encode_utf8(text)[i] == text[i] as u8,
{
    let p = text.subrange(0, hi);
    let q = text.subrange(hi, text.len() as int);
    assert(text =~= p + q);
    lemma_encode_utf8_concat(p, q);
    assert forall|i: int| 0 <= i < p.len() implies '\0' <= #[trigger] p[i] <= '\u{7f}' by {
        assert(p[i] == text[i]);
        lemma_char_at_least_nul(p[i]);
    }
    assert(is_ascii_chars(p));
    is_ascii_chars_encode_utf8(p);
    assert forall|i: int| 0 <= i < hi implies #[trigger] encode_utf8(text)[i] == text[i] as u8 by {
        assert(encode_utf8(text)[i] == encode_utf8(p)[i]);
        assert(p[i] == text[i]);
    }
}

/// A reference at the start of the text, with no other after it, is replaced
/// by the value of the variable that it names, all of its word characters
/// forming the name; the text after it is kept.
pub proof fn lemma_leading_ref_substituted(input: Seq<char>, env: Map<Seq<char>, String>, k: int)
    requires
        lone_leading_ref(input, k),
        k <= usize::MAX,
    ensures
        decode_utf8(substitute_env_refs(encode_utf8(input), seq![(0usize, k as usize)], env))
            == env_text(env, input.subrange(1, k)) + input.subrange(k, input.len() as int),
{
    let b = encode_utf8(input);
    let spans = seq![(0usize, k as usize)];
    let name = input.subrange(1, k);
    let rest = input.subrange(k, input.len() as int);
    assert forall|i: int| 0 <= i < k implies #[trigger] input[i] <= '\u{7f}' by {
        if i > 0 {
            assert(is_ascii_word_char(input[i]));
        }
    }
    lemma_ascii_prefix_bytes(input, k);
    assert(b[0] == 0x24u8);
    // The name's bytes are its characters.
    assert(is_ascii_chars(name));
    is_ascii_chars_encode_utf8(name);
    assert(b.subrange(1, k) =~= encode_utf8(name)) by {
        assert forall|i: int| 0 <= i < k - 1 implies #[trigger] b.subrange(1, k)[i] == encode_utf8(
            name,
        )[i] by {
            assert(b[i + 1] == input[i + 1] as u8);
            assert(name[i] == input[i + 1]);
        }
    }
    assert(span_name(b, spans[0]) == encode_utf8(name));
    let value = env_text(env, name);
    assert(env_value_bytes(env, span_name(b, spans[0])) == encode_utf8(value)) by {
        if !env.contains_key(name) {
            assert(encode_utf8(value) =~= Seq::<u8>::empty());
        }
    }
    // The text after the reference keeps its bytes.
    assert(b.subrange(k, b.len() as int) =~= encode_utf8(rest));
    assert(substituted_prefix(b, spans, env, 0) == Seq::<u8>::empty());
    assert(substituted_prefix(b, spans, env, 1) =~= encode_utf8(value));
    lemma_encode_utf8_concat(value, rest);
    assert(substitute_env_refs(b, spans, env) =~= encode_utf8(value + rest));
}

/// Replaces each `$NAME` in `input` by the value of the variable `NAME` in
/// `env`; a variable that is not set is replaced by nothing. A name runs over
/// every word character after its `$`.
pub fn resolve_env_vars(input: &String, env: &StrMap<String>) -> (output: String)
    requires
        env.wf(),
    ensures
        output@ == spec_resolve_env_vars(input@, env.view()),
        forall|k: int|
            #[trigger] lone_leading_ref(input@, k) ==> output@ == env_text(
                env.view(),
                input@.subrange(1, k),
            ) + input@.subrange(k, input@.len() as int),
{
    let byte_len = input.as_str().as_bytes().len();
    proof {
        lemma_encode_utf8_len(input@);
    }
    assert(input@.len() <= byte_len);
    let found = regex_find_spans("\\$\\w+", input.as_str());
    let spans: Vec<(usize, usize)> = match found {
        Some(v) => v,
        None => Vec::new(),
    };
    assert(spans@ == env_var_spans(input@));
    let output = substitute_env_vars(input, &spans, env);
    assert forall|k: int| #[trigger] lone_leading_ref(input@, k) implies output@ == env_text(
        env.view(),
        input@.subrange(1, k),
    ) + input@.subrange(k, input@.len() as int) by {
        assert(spans@ == seq![(0usize, k as usize)]);
        lemma_leading_ref_substituted(input@, env.view(), k);
    }
    output
}

/// Text without environment variable references is left as it is.
pub proof fn lemma_no_refs_unchanged(input: Seq<char>, env: Map<Seq<char>, String>)
    requires
        env_var_spans(input).len() == 0,
    ensures
        spec_resolve_env_vars(input, env) == input,
{
    let b = encode_utf8(input);
    let spans = env_var_spans(input);
    assert(substitute_env_refs(b, spans, env) =~= b);
}

} // verus!
