use vstd::prelude::*;

verus! {

broadcast use vstd::string::group_string_axioms;

// ---------------------------------------------------------------------------
// Model of the key rewriting, over sequences of characters
// ---------------------------------------------------------------------------

/// An ASCII decimal digit.
pub open spec fn is_digit(c: char) -> bool {
    '0' <= c && c <= '9'
}

/// The index of the first non-digit of `s` at or after `i`, or `s.len()`
/// when only digits follow.
pub open spec fn digit_run_end(s: Seq<char>, i: int) -> int
    decreases s.len() - i,
{
    if i < 0 || i >= s.len() {
        s.len() as int
    } else if !is_digit(s[i]) {
        i
    } else {
        digit_run_end(s, i + 1)
    }
}

/// `pat` occurs in `s` starting at index `i`.
pub open spec fn matches_at(s: Seq<char>, pat: Seq<char>, i: int) -> bool {
    &&& 0 <= i
    &&& i + pat.len() <= s.len()
    &&& s.subrange(i, i + pat.len()) == pat
}

/// The first index at or after `i` where `pat` occurs in `s`.
pub open spec fn find_from(s: Seq<char>, pat: Seq<char>, i: int) -> Option<int>
    decreases s.len() + 1 - i,
{
    if i < 0 || i + pat.len() > s.len() {
        None
    } else if matches_at(s, pat, i) {
        Some(i)
    } else {
        find_from(s, pat, i + 1)
    }
}

/// Where the first `pat` (a module name followed by a dot) occurs, and it
/// is followed by digits and a further dot, the dot after the module name
/// is dropped: `neck.1.x` becomes `neck1.x`.
pub open spec fn join_module_index(s: Seq<char>, pat: Seq<char>) -> Seq<char> {
    match find_from(s, pat, 0) {
        Some(pos) => {
            let after = pos + pat.len();
            let end = digit_run_end(s, after);
            if after < s.len() && after < end && end < s.len() && s[end] == '.' {
                s.take(after - 1) + s.skip(after)
            } else {
                s
            }
        },
        None => s,
    }
}

/// Every occurrence of `from`, scanning left to right without overlaps,
/// replaced by `to`.
pub open spec fn replace_all(s: Seq<char>, from: Seq<char>, to: Seq<char>) -> Seq<char>
    decreases s.len(),
{
    if s.len() == 0 {
        s
    } else if 0 < from.len() <= s.len() && s.take(from.len() as int) == from {
        to + replace_all(s.skip(from.len() as int), from, to)
    } else {
        seq![s[0]] + replace_all(s.drop_first(), from, to)
    }
}

/// Where the first `norm` of `s` is followed by digits and then `.weight`
/// (or `.bias`), that suffix becomes `.gamma` (or `.beta`).
pub open spec fn rename_norm_param(s: Seq<char>) -> Seq<char> {
    match find_from(s, "norm"@, 0) {
        Some(pos) => {
            let after = pos + "norm"@.len();
            let end = digit_run_end(s, after);
            if after < s.len() && is_digit(s[after]) && end < s.len() {
                if matches_at(s, ".weight"@, end) {
                    s.take(end) + ".gamma"@ + s.skip(end + ".weight"@.len())
                } else if matches_at(s, ".bias"@, end) {
                    s.take(end) + ".beta"@ + s.skip(end + ".bias"@.len())
                } else {
                    s
                }
            } else {
                s
            }
        },
        None => s,
    }
}

/// The index `i` starts a bracketable segment: a dot, one or more digits,
/// and another dot, with at least two characters after the first dot.
pub open spec fn index_segment_at(s: Seq<char>, i: int) -> bool {
    &&& 0 <= i
    &&& i + 2 < s.len()
    &&& s[i] == '.'
    &&& i + 1 < digit_run_end(s, i + 1)
    &&& digit_run_end(s, i + 1) < s.len()
    &&& s[digit_run_end(s, i + 1)] == '.'
}

/// Scanning from index `i`, each `.<digits>.` becomes `[<digits>].`;
/// scanning resumes after the second dot.
pub open spec fn bracket_indices_from(s: Seq<char>, i: int) -> Seq<char>
    decreases s.len() - i,
{
    if i < 0 || i >= s.len() {
        seq![]
    } else if index_segment_at(s, i) {
        let j = digit_run_end(s, i + 1);
        seq!['['] + s.subrange(i + 1, j) + seq![']', '.'] + bracket_indices_from(s, j + 1)
    } else {
        seq![s[i]] + bracket_indices_from(s, i + 1)
    }
}

/// The whole mapping from a parameter name in a PyTorch state dictionary
/// of the model to the name of the same parameter in the burn modules.
pub open spec fn spec_key_replacer(key: Seq<char>) -> Seq<char> {
    let k1 = join_module_index(key, "neck."@);
    let k2 = join_module_index(k1, "output_upscaling."@);
    let k3 = join_module_index(k2, "mask_downscaling."@);
    let k4 = replace_all(k3, "norm_final_attn.weight"@, "norm_final_attn.gamma"@);
    let k5 = replace_all(k4, "norm_final_attn.bias"@, "norm_final_attn.beta"@);
    let k6 = rename_norm_param(k5);
    bracket_indices_from(k6, 0)
}

// ---------------------------------------------------------------------------
// Lemmas
// ---------------------------------------------------------------------------

proof fn lemma_digit_run_end(s: Seq<char>, i: int)
    requires
        0 <= i <= s.len(),
    ensures
        i <= digit_run_end(s, i) <= s.len(),
        forall|k: int| i <= k < digit_run_end(s, i) ==> is_digit(#[trigger] s[k]),
        digit_run_end(s, i) < s.len() ==> !is_digit(s[digit_run_end(s, i)]),
    decreases s.len() - i,
{
    if i < s.len() && is_digit(s[i]) {
        lemma_digit_run_end(s, i + 1);
    }
}

proof fn lemma_find_from_bounds(s: Seq<char>, pat: Seq<char>, i: int)
    requires
        0 <= i,
    ensures
        find_from(s, pat, i) matches Some(p) ==> i <= p && matches_at(s, pat, p),
    decreases s.len() + 1 - i,
{
    if i + pat.len() <= s.len() && !matches_at(s, pat, i) {
        lemma_find_from_bounds(s, pat, i + 1);
    }
}

proof fn lemma_replace_all_without_match(s: Seq<char>, from: Seq<char>, to: Seq<char>)
    requires
        from.len() > 0,
        forall|i: int| !matches_at(s, from, i),
    ensures
        replace_all(s, from, to) == s,
    decreases s.len(),
{
    if s.len() > 0 {
        if from.len() <= s.len() {
            assert(s.take(from.len() as int) =~= s.subrange(0, from.len() as int));
            assert(!matches_at(s, from, 0));
        }
        let t = s.drop_first();
        assert forall|i: int| !matches_at(t, from, i) by {
            if matches_at(t, from, i) {
                assert(t.subrange(i, i + from.len()) =~= s.subrange(i + 1, i + 1 + from.len()));
                assert(matches_at(s, from, i + 1));
            }
        }
        lemma_replace_all_without_match(t, from, to);
        assert(seq![s[0]] + t =~= s);
    }
}

proof fn lemma_bracket_indices_without_digits(s: Seq<char>, i: int)
    requires
        0 <= i <= s.len(),
        forall|k: int| 0 <= k < s.len() ==> !is_digit(#[trigger] s[k]),
    ensures
        bracket_indices_from(s, i) == s.skip(i),
    decreases s.len() - i,
{
    if i < s.len() {
        if i + 1 < s.len() {
            lemma_digit_run_end(s, i + 1);
            assert(digit_run_end(s, i + 1) == i + 1);
        }
        assert(!index_segment_at(s, i));
        lemma_bracket_indices_without_digits(s, i + 1);
        assert(seq![s[i]] + s.skip(i + 1) =~= s.skip(i));
    } else {
        assert(s.skip(i) =~= Seq::<char>::empty());
    }
}

proof fn lemma_join_module_index_without_digits(s: Seq<char>, pat: Seq<char>)
    requires
        forall|k: int| 0 <= k < s.len() ==> !is_digit(#[trigger] s[k]),
    ensures
        join_module_index(s, pat) == s,
{
    lemma_find_from_bounds(s, pat, 0);
    if let Some(pos) = find_from(s, pat, 0) {
        let after = pos + pat.len();
        if 0 <= after < s.len() {
            lemma_digit_run_end(s, after);
        }
    }
}

/// Parameter names without any digit, and without the weight or bias of
/// `norm_final_attn`, are kept as they are.
pub proof fn lemma_key_replacer_keeps_plain_names(key: Seq<char>)
    requires
        forall|k: int| 0 <= k < key.len() ==> !is_digit(#[trigger] key[k]),
        forall|i: int| !matches_at(key, "norm_final_attn.weight"@, i),
        forall|i: int| !matches_at(key, "norm_final_attn.bias"@, i),
    ensures
        spec_key_replacer(key) == key,
{
    reveal_strlit("norm_final_attn.weight");
    reveal_strlit("norm_final_attn.bias");
    lemma_join_module_index_without_digits(key, "neck."@);
    lemma_join_module_index_without_digits(key, "output_upscaling."@);
    lemma_join_module_index_without_digits(key, "mask_downscaling."@);
    lemma_replace_all_without_match(key, "norm_final_attn.weight"@, "norm_final_attn.gamma"@);
    lemma_replace_all_without_match(key, "norm_final_attn.bias"@, "norm_final_attn.beta"@);
    lemma_find_from_bounds(key, "norm"@, 0);
    lemma_bracket_indices_without_digits(key, 0);
    assert(key.skip(0) =~= key);
}

proof fn lemma_digit_run_end_skip(s: Seq<char>, i: int, k: int)
    requires
        0 <= i <= s.len(),
        0 <= k,
    ensures
        digit_run_end(s.skip(i), k) == digit_run_end(s, i + k) - i,
    decreases s.len() - i - k,
{
    if i + k < s.len() && is_digit(s[i + k]) {
        lemma_digit_run_end_skip(s, i, k + 1);
    }
}

proof fn lemma_bracket_indices_skip(s: Seq<char>, i: int)
    requires
        0 <= i <= s.len(),
    ensures
        bracket_indices_from(s, i) == bracket_indices_from(s.skip(i), 0),
    decreases s.len() - i,
{
    let t = s.skip(i);
    if i < s.len() {
        lemma_digit_run_end_skip(s, i, 1);
        assert(index_segment_at(s, i) == index_segment_at(t, 0));
        if index_segment_at(s, i) {
            let j = digit_run_end(s, i + 1);
            lemma_digit_run_end(s, i + 1);
            lemma_bracket_indices_skip(s, j + 1);
            lemma_bracket_indices_skip(t, j + 1 - i);
            assert(t.skip(j + 1 - i) =~= s.skip(j + 1));
            assert(t.subrange(1, j - i) =~= s.subrange(i + 1, j));
        } else {
            lemma_bracket_indices_skip(s, i + 1);
            lemma_bracket_indices_skip(t, 1);
            assert(t.skip(1) =~= s.skip(i + 1));
        }
    }
}

proof fn lemma_bracket_indices_copy_prefix(s: Seq<char>, i: int, p: int)
    requires
        0 <= i <= p <= s.len(),
        forall|k: int| i <= k < p ==> !#[trigger] index_segment_at(s, k),
    ensures
        bracket_indices_from(s, i) == s.subrange(i, p) + bracket_indices_from(s, p),
    decreases p - i,
{
    if i < p {
        assert(!index_segment_at(s, i));
        lemma_bracket_indices_copy_prefix(s, i + 1, p);
        assert(seq![s[i]] + s.subrange(i + 1, p) =~= s.subrange(i, p));
    } else {
        assert(s.subrange(i, p) =~= Seq::<char>::empty());
    }
}

/// A name in which no `.<digits>.` occurs is kept by the bracketing step.
pub proof fn lemma_bracket_indices_without_segments(s: Seq<char>)
    requires
        forall|i: int| !#[trigger] index_segment_at(s, i),
    ensures
        bracket_indices_from(s, 0) == s,
{
    lemma_bracket_indices_copy_prefix(s, 0, s.len() as int);
    assert(s.subrange(0, s.len() as int) =~= s);
}

/// The bracketing step works left to right without overlap: where the
/// first `.<digits>.` of a name starts right after `a`, the name
/// `a.<digits>.b` becomes `a[<digits>].` followed by the bracketing of `b`
/// on its own.
pub proof fn lemma_bracket_indices_first_segment(a: Seq<char>, digits: Seq<char>, b: Seq<char>)
    requires
        digits.len() > 0,
        forall|k: int| 0 <= k < digits.len() ==> is_digit(#[trigger] digits[k]),
        forall|i: int|
            0 <= i < a.len() ==> !#[trigger] index_segment_at(a + seq!['.'] + digits + seq!['.'] + b, i),
    ensures
        bracket_indices_from(a + seq!['.'] + digits + seq!['.'] + b, 0) == a + seq!['['] + digits
            + seq![']', '.'] + bracket_indices_from(b, 0),
{
    let s = a + seq!['.'] + digits + seq!['.'] + b;
    let p = a.len() as int;
    let e = p + 1 + digits.len();
    lemma_bracket_indices_copy_prefix(s, 0, p);
    assert(s.subrange(0, p) =~= a);
    assert forall|k: int| p + 1 <= k < e implies is_digit(#[trigger] s[k]) by {
        assert(s[k] == digits[k - p - 1]);
    }
    assert(s[e] == '.');
    lemma_digit_run_end_to(s, p + 1, e);
    assert(index_segment_at(s, p));
    lemma_bracket_indices_skip(s, e + 1);
    assert(s.skip(e + 1) =~= b);
    assert(s.subrange(p + 1, e) =~= digits);
    assert(a + seq!['['] + digits + seq![']', '.'] + bracket_indices_from(b, 0) =~= a + (seq!['[']
        + digits + seq![']', '.'] + bracket_indices_from(b, 0)));
}

proof fn lemma_digit_run_end_to(s: Seq<char>, i: int, e: int)
    requires
        0 <= i <= e < s.len(),
        forall|k: int| i <= k < e ==> is_digit(#[trigger] s[k]),
        !is_digit(s[e]),
    ensures
        digit_run_end(s, i) == e,
    decreases e - i,
{
    if i < e {
        lemma_digit_run_end_to(s, i + 1, e);
    }
}

proof fn lemma_no_match_extends(s: Seq<char>, short: Seq<char>, long: Seq<char>, i: int)
    requires
        short.len() <= long.len(),
        long.subrange(0, short.len() as int) == short,
        !matches_at(s, short, i),
    ensures
        !matches_at(s, long, i),
{
    if matches_at(s, long, i) {
        assert(s.subrange(i, i + short.len()) =~= long.subrange(0, short.len() as int));
    }
}

proof fn lemma_find_from_none(s: Seq<char>, pat: Seq<char>, i: int)
    requires
        0 <= i,
        forall|k: int| !#[trigger] matches_at(s, pat, k),
    ensures
        find_from(s, pat, i) is None,
    decreases s.len() + 1 - i,
{
    if i + pat.len() <= s.len() {
        assert(!matches_at(s, pat, i));
        lemma_find_from_none(s, pat, i + 1);
    }
}

/// A name without `neck.`, `output_upscaling.`, `mask_downscaling.` and
/// `norm` is changed only by the bracketing of its indices.
pub proof fn lemma_key_replacer_only_brackets(key: Seq<char>)
    requires
        forall|i: int| !#[trigger] matches_at(key, "neck."@, i),
        forall|i: int| !#[trigger] matches_at(key, "output_upscaling."@, i),
        forall|i: int| !#[trigger] matches_at(key, "mask_downscaling."@, i),
        forall|i: int| !#[trigger] matches_at(key, "norm"@, i),
    ensures
        spec_key_replacer(key) == bracket_indices_from(key, 0),
{
    reveal_strlit("norm");
    reveal_strlit("norm_final_attn.weight");
    reveal_strlit("norm_final_attn.bias");
    lemma_find_from_none(key, "neck."@, 0);
    lemma_find_from_none(key, "output_upscaling."@, 0);
    lemma_find_from_none(key, "mask_downscaling."@, 0);
    assert("norm_final_attn.weight"@.subrange(0, 4) =~= "norm"@);
    assert("norm_final_attn.bias"@.subrange(0, 4) =~= "norm"@);
    assert forall|i: int| !#[trigger] matches_at(key, "norm_final_attn.weight"@, i) by {
        lemma_no_match_extends(key, "norm"@, "norm_final_attn.weight"@, i);
    }
    assert forall|i: int| !#[trigger] matches_at(key, "norm_final_attn.bias"@, i) by {
        lemma_no_match_extends(key, "norm"@, "norm_final_attn.bias"@, i);
    }
    lemma_replace_all_without_match(key, "norm_final_attn.weight"@, "norm_final_attn.gamma"@);
    lemma_replace_all_without_match(key, "norm_final_attn.bias"@, "norm_final_attn.beta"@);
    lemma_find_from_none(key, "norm"@, 0);
}

proof fn lemma_find_from_first(s: Seq<char>, pat: Seq<char>, i: int, m: int)
    requires
        0 <= i <= m,
        matches_at(s, pat, m),
        forall|j: int| i <= j < m ==> !#[trigger] matches_at(s, pat, j),
    ensures
        find_from(s, pat, i) == Some(m),
    decreases m - i,
{
    if i < m {
        assert(!matches_at(s, pat, i));
        lemma_find_from_first(s, pat, i + 1, m);
    }
}

/// A pattern ending in a non-digit and a dot that does not occur in `p`
/// does not occur in `p + t` either, when the only dot of `t` follows a digit.
proof fn lemma_dotted_pattern_not_in_tail(p: Seq<char>, t: Seq<char>, pat: Seq<char>, dot_at: int)
    requires
        forall|i: int| !#[trigger] matches_at(p, pat, i),
        pat.len() >= 2,
        pat[pat.len() - 1] == '.',
        !is_digit(pat[pat.len() - 2]),
        1 <= dot_at < t.len(),
        forall|q: int| 0 <= q < t.len() && #[trigger] t[q] == '.' ==> q == dot_at,
        is_digit(t[dot_at - 1]),
    ensures
        forall|i: int| !#[trigger] matches_at(p + t, pat, i),
{
    let k = p + t;
    assert forall|i: int| !#[trigger] matches_at(k, pat, i) by {
        if matches_at(k, pat, i) {
            let e = i + pat.len() - 1;
            assert(k.subrange(i, i + pat.len())[pat.len() - 1] == k[e]);
            assert(k.subrange(i, i + pat.len())[pat.len() - 2] == k[e - 1]);
            if e >= p.len() {
                assert(t[e - p.len()] == '.');
                assert(e - p.len() == dot_at);
                assert(k[e - 1] == t[dot_at - 1]);
            } else {
                assert(p.subrange(i, i + pat.len()) =~= k.subrange(i, i + pat.len()));
                assert(matches_at(p, pat, i));
            }
        }
    }
}

/// When `p` has no `norm` and `t` starts with `norm` and holds no other
/// `n`, the only `norm` of `p + t` starts where `t` does.
proof fn lemma_norm_only_at_tail(p: Seq<char>, t: Seq<char>)
    requires
        forall|i: int| !#[trigger] matches_at(p, "norm"@, i),
        t.len() >= 4,
        t.subrange(0, 4) == "norm"@,
        forall|q: int| 1 <= q < t.len() ==> #[trigger] t[q] != 'n',
    ensures
        forall|i: int| #[trigger] matches_at(p + t, "norm"@, i) <==> i == p.len(),
{
    reveal_strlit("norm");
    let k = p + t;
    assert forall|i: int| #[trigger] matches_at(k, "norm"@, i) <==> i == p.len() by {
        if i == p.len() {
            assert(k.subrange(i, i + 4) =~= t.subrange(0, 4));
        } else if matches_at(k, "norm"@, i) {
            assert(k.subrange(i, i + 4)[0] == k[i]);
            assert(k[i] == 'n');
            if i > p.len() {
                assert(t[i - p.len()] == 'n');
            } else if i + 4 <= p.len() {
                assert(p.subrange(i, i + 4) =~= k.subrange(i, i + 4));
                assert(matches_at(p, "norm"@, i));
            } else {
                assert(t.subrange(0, 4)[0] == t[0]);
                assert(k[p.len() as int] == 'n');
                assert(k.subrange(i, i + 4)[p.len() - i] == k[p.len() as int]);
            }
        }
    }
}

proof fn lemma_norm_param_key(p: Seq<char>, d: Seq<char>, sfx: Seq<char>, repl: Seq<char>)
    requires
        forall|i: int| !#[trigger] matches_at(p, "norm"@, i),
        forall|i: int| !#[trigger] matches_at(p, "neck."@, i),
        forall|i: int| !#[trigger] matches_at(p, "output_upscaling."@, i),
        forall|i: int| !#[trigger] matches_at(p, "mask_downscaling."@, i),
        d.len() > 0,
        forall|j: int| 0 <= j < d.len() ==> is_digit(#[trigger] d[j]),
        (sfx == ".weight"@ && repl == ".gamma"@) || (sfx == ".bias"@ && repl == ".beta"@),
    ensures
        spec_key_replacer(p + "norm"@ + d + sfx) == bracket_indices_from(p + "norm"@ + d + repl, 0),
{
    reveal_strlit("norm");
    reveal_strlit(".weight");
    reveal_strlit(".gamma");
    reveal_strlit(".bias");
    reveal_strlit(".beta");
    reveal_strlit("neck.");
    reveal_strlit("output_upscaling.");
    reveal_strlit("mask_downscaling.");
    reveal_strlit("norm_final_attn.weight");
    reveal_strlit("norm_final_attn.bias");
    let t = "norm"@ + d + sfx;
    let k = p + t;
    assert(k =~= p + "norm"@ + d + sfx);
    let dot_at: int = 4 + d.len() as int;
    assert(sfx[0] == '.');
    assert forall|j: int| 1 <= j < sfx.len() implies #[trigger] sfx[j] != '.' && sfx[j] != 'n' by {
        if sfx == ".weight"@ {
            assert(j == 1 || j == 2 || j == 3 || j == 4 || j == 5 || j == 6);
        } else {
            assert(j == 1 || j == 2 || j == 3 || j == 4);
        }
    }
    assert forall|q: int| 0 <= q < t.len() && #[trigger] t[q] == '.' implies q == dot_at by {
        if q < 4 {
            assert(q == 0 || q == 1 || q == 2 || q == 3);
        } else if q < dot_at {
            assert(is_digit(d[q - 4]));
        } else if q > dot_at {
            assert(t[q] == sfx[q - dot_at]);
        }
    }
    assert forall|q: int| 1 <= q < t.len() implies #[trigger] t[q] != 'n' by {
        if q < 4 {
            assert(q == 1 || q == 2 || q == 3);
        } else if q < dot_at {
            assert(is_digit(d[q - 4]));
        } else if q > dot_at {
            assert(t[q] == sfx[q - dot_at]);
        }
    }
    assert(is_digit(t[dot_at - 1])) by {
        assert(t[dot_at - 1] == d[d.len() - 1]);
    }
    assert(t.subrange(0, 4) =~= "norm"@);
    // no module index, no norm_final_attn, and one norm at p.len()
    assert("neck."@[4] == '.' && !is_digit("neck."@[3]));
    assert("output_upscaling."@[16] == '.' && !is_digit("output_upscaling."@[15]));
    assert("mask_downscaling."@[16] == '.' && !is_digit("mask_downscaling."@[15]));
    lemma_dotted_pattern_not_in_tail(p, t, "neck."@, dot_at);
    lemma_dotted_pattern_not_in_tail(p, t, "output_upscaling."@, dot_at);
    lemma_dotted_pattern_not_in_tail(p, t, "mask_downscaling."@, dot_at);
    lemma_find_from_none(k, "neck."@, 0);
    lemma_find_from_none(k, "output_upscaling."@, 0);
    lemma_find_from_none(k, "mask_downscaling."@, 0);
    lemma_norm_only_at_tail(p, t);
    assert("norm_final_attn.weight"@.subrange(0, 4) =~= "norm"@);
    assert("norm_final_attn.bias"@.subrange(0, 4) =~= "norm"@);
    let pl = p.len() as int;
    assert(k[pl + 4] == d[0]);
    assert forall|i: int| !#[trigger] matches_at(k, "norm_final_attn.weight"@, i) by {
        if i == pl {
            if matches_at(k, "norm_final_attn.weight"@, i) {
                assert(k.subrange(i, i + 22)[4] == k[pl + 4]);
            }
        } else {
            lemma_no_match_extends(k, "norm"@, "norm_final_attn.weight"@, i);
        }
    }
    assert forall|i: int| !#[trigger] matches_at(k, "norm_final_attn.bias"@, i) by {
        if i == pl {
            if matches_at(k, "norm_final_attn.bias"@, i) {
                assert(k.subrange(i, i + 20)[4] == k[pl + 4]);
            }
        } else {
            lemma_no_match_extends(k, "norm"@, "norm_final_attn.bias"@, i);
        }
    }
    lemma_replace_all_without_match(k, "norm_final_attn.weight"@, "norm_final_attn.gamma"@);
    lemma_replace_all_without_match(k, "norm_final_attn.bias"@, "norm_final_attn.beta"@);
    assert forall|j: int| 0 <= j < pl implies !#[trigger] matches_at(k, "norm"@, j) by {}
    assert(matches_at(k, "norm"@, pl));
    lemma_find_from_first(k, "norm"@, 0, pl);
    // the digits after norm
    let after = pl + 4;
    let end = pl + dot_at;
    assert forall|q: int| after <= q < end implies is_digit(#[trigger] k[q]) by {
        assert(k[q] == d[q - after]);
    }
    assert(k[end] == '.');
    lemma_digit_run_end_to(k, after, end);
    assert(is_digit(k[after]));
    let head = p + "norm"@ + d;
    assert(k.take(end) =~= head);
    if sfx == ".weight"@ {
        assert(k.subrange(end, end + 7) =~= ".weight"@);
        assert(k.skip(end + 7) =~= Seq::<char>::empty());
        assert(rename_norm_param(k) =~= head + repl);
    } else {
        assert(!matches_at(k, ".weight"@, end));
        assert(k.subrange(end, end + 5) =~= ".bias"@);
        assert(k.skip(end + 5) =~= Seq::<char>::empty());
        assert(rename_norm_param(k) =~= head + repl);
    }
}

/// Renaming a `norm<digits>` parameter keeps everything before `norm`: for a
/// prefix `p` without `norm`, `neck.`, `output_upscaling.` and
/// `mask_downscaling.`, and digits `d`, the name `p + norm + d + .weight`
/// maps as `p + norm + d + .gamma` does under the bracketing of indices,
/// and `.bias` likewise as `.beta`.
pub proof fn lemma_key_replacer_norm_param_keeps_prefix(p: Seq<char>, d: Seq<char>)
    requires
        forall|i: int| !#[trigger] matches_at(p, "norm"@, i),
        forall|i: int| !#[trigger] matches_at(p, "neck."@, i),
        forall|i: int| !#[trigger] matches_at(p, "output_upscaling."@, i),
        forall|i: int| !#[trigger] matches_at(p, "mask_downscaling."@, i),
        d.len() > 0,
        forall|j: int| 0 <= j < d.len() ==> is_digit(#[trigger] d[j]),
    ensures
        spec_key_replacer(p + "norm"@ + d + ".weight"@) == bracket_indices_from(
            p + "norm"@ + d + ".gamma"@,
            0,
        ),
        spec_key_replacer(p + "norm"@ + d + ".bias"@) == bracket_indices_from(
            p + "norm"@ + d + ".beta"@,
            0,
        ),
{
    lemma_norm_param_key(p, d, ".weight"@, ".gamma"@);
    lemma_norm_param_key(p, d, ".bias"@, ".beta"@);
}

/// Joining a module name to its index drops exactly the dot after the
/// first occurrence of the module name and keeps everything else: where
/// `pat` first occurs right after `p` and is followed by digits `d` and a
/// dot, `p + pat + d + . + r` becomes `p + pat` without its last character,
/// then `d + . + r`.
pub proof fn lemma_join_module_index_drops_one_dot(p: Seq<char>, pat: Seq<char>, d: Seq<char>, r: Seq<char>)
    requires
        pat.len() > 0,
        d.len() > 0,
        forall|j: int| 0 <= j < d.len() ==> is_digit(#[trigger] d[j]),
        forall|i: int|
            0 <= i < p.len() ==> !#[trigger] matches_at(p + pat + d + seq!['.'] + r, pat, i),
    ensures
        join_module_index(p + pat + d + seq!['.'] + r, pat) == p + pat.drop_last() + d + seq!['.'] + r,
{
    let s = p + pat + d + seq!['.'] + r;
    let pl = p.len() as int;
    let after = pl + pat.len();
    let end = after + d.len();
    assert(s.subrange(pl, after) =~= pat);
    lemma_find_from_first(s, pat, 0, pl);
    assert forall|q: int| after <= q < end implies is_digit(#[trigger] s[q]) by {
        assert(s[q] == d[q - after]);
    }
    assert(s[end] == '.');
    lemma_digit_run_end_to(s, after, end);
    assert(s.take(after - 1) + s.skip(after) =~= p + pat.drop_last() + d + seq!['.'] + r);
}

// ---------------------------------------------------------------------------
// Executable helpers
// ---------------------------------------------------------------------------

/// `String::push` appends the character to the end of the string.
#[verifier::external_body]
fn push_char(s: &mut String, c: char)
    ensures
        final(s)@ == old(s)@.push(c),
{
    s.push(c);
}

/// The characters of `s`, in order.
fn chars_of(s: &str) -> (res: Vec<char>)
    ensures
        res@ == s@,
{
    let mut res: Vec<char> = Vec::new();
    for c in it: s.chars()
        invariant
            it.seq() == s@,
            res@ == s@.take(it.index()),
    {
        res.push(c);
    }
    res
}

/// The string made of the characters of `v`, in order.
fn string_of(v: &Vec<char>) -> (res: String)
    ensures
        res@ == v@,
{
    let mut res = String::new();
    let mut i: usize = 0;
    while i < v.len()
        invariant
            i <= v.len(),
            res@ == v@.take(i as int),
        decreases v.len() - i,
    {
        push_char(&mut res, v[i]);
        i += 1;
        assert(res@ =~= v@.take(i as int));
    }
    assert(v@.take(v.len() as int) =~= v@);
    res
}

fn is_ascii_digit(c: char) -> (res: bool)
    ensures
        res == is_digit(c),
{
    '0' <= c && c <= '9'
}

fn digit_run_end_exec(s: &Vec<char>, i: usize) -> (res: usize)
    requires
        i <= s.len(),
    ensures
        res as int == digit_run_end(s@, i as int),
{
    let mut j = i;
    while j < s.len() && is_ascii_digit(s[j])
        invariant
            i <= j <= s.len(),
            digit_run_end(s@, i as int) == digit_run_end(s@, j as int),
        decreases s.len() - j,
    {
        j += 1;
    }
    j
}

fn matches_at_exec(s: &Vec<char>, pat: &Vec<char>, i: usize) -> (res: bool)
    ensures
        res == matches_at(s@, pat@, i as int),
{
    if i > s.len() || pat.len() > s.len() - i {
        return false;
    }
    let mut k: usize = 0;
    while k < pat.len()
        invariant
            i + pat.len() <= s.len(),
            k <= pat.len(),
            forall|m: int| 0 <= m < k ==> s@[i + m] == pat@[m],
        decreases pat.len() - k,
    {
        if s[i + k] != pat[k] {
            assert(s@.subrange(i as int, i + pat.len())[k as int] != pat@[k as int]);
            return false;
        }
        k += 1;
    }
    assert(s@.subrange(i as int, i + pat.len()) =~= pat@);
    true
}

fn find_exec(s: &Vec<char>, pat: &Vec<char>) -> (res: Option<usize>)
    ensures
        match res {
            Some(p) => find_from(s@, pat@, 0) == Some(p as int),
            None => find_from(s@, pat@, 0) is None,
        },
{
    let mut i: usize = 0;
    while i <= s.len() && pat.len() <= s.len() - i
        invariant
            find_from(s@, pat@, 0) == find_from(s@, pat@, i as int),
        decreases s.len() + 1 - i,
    {
        if matches_at_exec(s, pat, i) {
            return Some(i);
        }
        proof {
            if pat.len() == 0 {
                assert(s@.subrange(i as int, i as int) =~= pat@);
            }
        }
        i += 1;
    }
    None
}

/// The sequence `s` with index `k` removed.
fn remove_at(s: &Vec<char>, k: usize) -> (res: Vec<char>)
    requires
        k < s.len(),
    ensures
        res@ == s@.take(k as int) + s@.skip(k + 1),
{
    let mut res: Vec<char> = Vec::new();
    let mut i: usize = 0;
    while i < s.len()
        invariant
            k < s.len(),
            i <= s.len(),
            i <= k ==> res@ == s@.take(i as int),
            i > k ==> res@ == s@.take(k as int) + s@.subrange(k + 1, i as int),
        decreases s.len() - i,
    {
        if i != k {
            res.push(s[i]);
        }
        i += 1;
        assert(i <= k ==> res@ =~= s@.take(i as int));
        assert(i > k ==> res@ =~= s@.take(k as int) + s@.subrange(k + 1, i as int));
    }
    assert(s@.subrange(k + 1, s.len() as int) =~= s@.skip(k + 1));
    res
}

/// `head` followed by `mid` followed by `tail`.
fn concat3(head: &[char], mid: &Vec<char>, tail: &[char]) -> (res: Vec<char>)
    ensures
        res@ == head@ + mid@ + tail@,
{
    let mut res: Vec<char> = Vec::new();
    let mut i: usize = 0;
    while i < head.len()
        invariant
            i <= head.len(),
            res@ == head@.take(i as int),
        decreases head.len() - i,
    {
        res.push(head[i]);
        i += 1;
        assert(res@ =~= head@.take(i as int));
    }
    assert(head@.take(head.len() as int) =~= head@);
    i = 0;
    while i < mid.len()
        invariant
            i <= mid.len(),
            res@ == head@ + mid@.take(i as int),
        decreases mid.len() - i,
    {
        res.push(mid[i]);
        i += 1;
        assert(res@ =~= head@ + mid@.take(i as int));
    }
    assert(mid@.take(mid.len() as int) =~= mid@);
    i = 0;
    while i < tail.len()
        invariant
            i <= tail.len(),
            res@ == head@ + mid@ + tail@.take(i as int),
        decreases tail.len() - i,
    {
        res.push(tail[i]);
        i += 1;
        assert(res@ =~= head@ + mid@ + tail@.take(i as int));
    }
    assert(tail@.take(tail.len() as int) =~= tail@);
    res
}

// ---------------------------------------------------------------------------
// The four rewriting steps
// ---------------------------------------------------------------------------

fn join_module_index_exec(s: Vec<char>, pat: &Vec<char>) -> (res: Vec<char>)
    requires
        pat.len() > 0,
    ensures
        res@ == join_module_index(s@, pat@),
{
    match find_exec(&s, pat) {
        Some(pos) => {
            proof {
                lemma_find_from_bounds(s@, pat@, 0);
                assert(matches_at(s@, pat@, pos as int));
                assert(pos + pat@.len() <= s@.len());
                assert(pos + pat.len() <= s.len());
            }
            let after = pos + pat.len();
            if after < s.len() {
                let end = digit_run_end_exec(&s, after);
                if after < end && end < s.len() && s[end] == '.' {
                    return remove_at(&s, after - 1);
                }
            }
            s
        },
        None => s,
    }
}

fn replace_all_exec(s: &Vec<char>, from: &Vec<char>, to: &Vec<char>) -> (res: Vec<char>)
    ensures
        res@ == replace_all(s@, from@, to@),
{
    let mut res: Vec<char> = Vec::new();
    let mut i: usize = 0;
    assert(s@.skip(0) =~= s@);
    assert(res@ + s@ =~= s@);
    while i < s.len()
        invariant
            i <= s.len(),
            res@ + replace_all(s@.skip(i as int), from@, to@) == replace_all(s@, from@, to@),
        decreases s.len() - i,
    {
        let ghost rest = s@.skip(i as int);
        if from.len() > 0 && matches_at_exec(s, from, i) {
            assert(rest.take(from.len() as int) =~= s@.subrange(i as int, i + from.len()));
            assert(rest.skip(from.len() as int) =~= s@.skip(i + from.len()));
            let mut k: usize = 0;
            let ghost before = res@;
            while k < to.len()
                invariant
                    k <= to.len(),
                    res@ == before + to@.take(k as int),
                decreases to.len() - k,
            {
                res.push(to[k]);
                k += 1;
                assert(res@ =~= before + to@.take(k as int));
            }
            assert(to@.take(to.len() as int) =~= to@);
            assert(before + (to@ + replace_all(s@.skip(i + from.len()), from@, to@))
                =~= res@ + replace_all(s@.skip(i + from.len()), from@, to@));
            i = i + from.len();
        } else {
            proof {
                if 0 < from.len() <= rest.len() {
                    assert(rest.take(from.len() as int) =~= s@.subrange(i as int, i + from.len()));
                }
            }
            assert(rest.drop_first() =~= s@.skip(i + 1));
            let ghost before = res@;
            res.push(s[i]);
            assert(before + (seq![s@[i as int]] + replace_all(s@.skip(i + 1), from@, to@))
                =~= res@ + replace_all(s@.skip(i + 1), from@, to@));
            i = i + 1;
        }
    }
    assert(s@.skip(s.len() as int) =~= Seq::<char>::empty());
    assert(res@ + Seq::<char>::empty() =~= res@);
    res
}

fn rename_norm_param_exec(s: Vec<char>) -> (res: Vec<char>)
    ensures
        res@ == rename_norm_param(s@),
{
    let norm = chars_of("norm");
    let weight = chars_of(".weight");
    let gamma = chars_of(".gamma");
    let bias = chars_of(".bias");
    let beta = chars_of(".beta");
    match find_exec(&s, &norm) {
        Some(pos) => {
            proof {
                lemma_find_from_bounds(s@, norm@, 0);
                assert(matches_at(s@, norm@, pos as int));
                assert(pos + norm@.len() <= s@.len());
                assert(pos + norm.len() <= s.len());
            }
            let after = pos + norm.len();
            if after < s.len() && is_ascii_digit(s[after]) {
                let end = digit_run_end_exec(&s, after);
                if end < s.len() {
                    if matches_at_exec(&s, &weight, end) {
                        return concat3(
                            slice_take(&s, end),
                            &gamma,
                            slice_skip(&s, end + weight.len()),
                        );
                    } else if matches_at_exec(&s, &bias, end) {
                        return concat3(
                            slice_take(&s, end),
                            &beta,
                            slice_skip(&s, end + bias.len()),
                        );
                    }
                }
            }
            s
        },
        None => s,
    }
}

fn slice_take(s: &Vec<char>, n: usize) -> (res: &[char])
    requires
        n <= s.len(),
    ensures
        res@ == s@.take(n as int),
{
    let res = vstd::slice::slice_subrange(s.as_slice(), 0, n);
    assert(res@ =~= s@.take(n as int));
    res
}

fn slice_skip(s: &Vec<char>, n: usize) -> (res: &[char])
    requires
        n <= s.len(),
    ensures
        res@ == s@.skip(n as int),
{
    let res = vstd::slice::slice_subrange(s.as_slice(), n, s.len());
    assert(res@ =~= s@.skip(n as int));
    res
}

fn bracket_indices_exec(s: &Vec<char>) -> (res: Vec<char>)
    ensures
        res@ == bracket_indices_from(s@, 0),
{
    let mut res: Vec<char> = Vec::new();
    let mut i: usize = 0;
    while i < s.len()
        invariant
            i <= s.len(),
            res@ + bracket_indices_from(s@, i as int) == bracket_indices_from(s@, 0),
        decreases s.len() - i,
    {
        let ghost before = res@;
        if s[i] == '.' && s.len() - i > 2 {
            let j = digit_run_end_exec(s, i + 1);
            if j > i + 1 && j < s.len() && s[j] == '.' {
                assert(index_segment_at(s@, i as int));
                res.push('[');
                let mut k = i + 1;
                while k < j
                    invariant
                        i + 1 <= k <= j,
                        j < s.len(),
                        res@ == before + seq!['['] + s@.subrange(i + 1, k as int),
                    decreases j - k,
                {
                    res.push(s[k]);
                    k += 1;
                    assert(res@ =~= before + seq!['['] + s@.subrange(i + 1, k as int));
                }
                res.push(']');
                res.push('.');
                assert(before + (seq!['['] + s@.subrange(i + 1, j as int) + seq![']', '.']
                    + bracket_indices_from(s@, j + 1))
                    =~= res@ + bracket_indices_from(s@, j + 1));
                i = j + 1;
                continue;
            }
        }
        assert(!index_segment_at(s@, i as int));
        res.push(s[i]);
        assert(before + (seq![s@[i as int]] + bracket_indices_from(s@, i + 1))
            =~= res@ + bracket_indices_from(s@, i + 1));
        i += 1;
    }
    assert(res@ + Seq::<char>::empty() =~= res@);
    res
}

/// Maps the name of a parameter in a PyTorch state dictionary of the model
/// to the name of the same parameter in the burn modules:
/// `neck.1.` (and the same for `output_upscaling` and `mask_downscaling`)
/// becomes `neck1.`, the weight and bias of `norm_final_attn`, and those of
/// `norm<digits>` where that is the first `norm` of the name, become
/// `gamma` and `beta`, and every other
/// `.<digits>.` becomes `[<digits>].`.
pub fn key_replacer(key: String) -> (res: String)
    ensures
        res@ == spec_key_replacer(key@),
{
    proof {
        reveal_strlit("neck.");
        reveal_strlit("output_upscaling.");
        reveal_strlit("mask_downscaling.");
    }
    let k0 = chars_of(key.as_str());
    let k1 = join_module_index_exec(k0, &chars_of("neck."));
    let k2 = join_module_index_exec(k1, &chars_of("output_upscaling."));
    let k3 = join_module_index_exec(k2, &chars_of("mask_downscaling."));
    let k4 = replace_all_exec(
        &k3,
        &chars_of("norm_final_attn.weight"),
        &chars_of("norm_final_attn.gamma"),
    );
    let k5 = replace_all_exec(
        &k4,
        &chars_of("norm_final_attn.bias"),
        &chars_of("norm_final_attn.beta"),
    );
    let k6 = rename_norm_param_exec(k5);
    let k7 = bracket_indices_exec(&k6);
    string_of(&k7)
}

} // verus!
