//! Prompt context assembly: CJK-aware token estimation, `{{char}}` /
//! `{{user}}` substitution, and trimming of the chat history to a token
//! budget (oldest (user, assistant) pairs first; the newest message stays).

use vstd::prelude::*;

use crate::text::{chars_of, replace_all, replace_chars, string_from_chars};

verus! {

/// One chat message as sent to the model.
#[derive(Debug, Clone)]
pub struct Msg {
    pub role: String,
    pub content: String,
}

impl Msg {
    /// A message with the given role and content.
    pub fn new(role: &str, content: &str) -> (m: Msg)
        ensures
            m.role@ == role@,
            m.content@ == content@,
    {
        Msg { role: role.to_owned(), content: content.to_owned() }
    }

    /// A field-for-field copy.
    pub fn duplicate(&self) -> (m: Msg)
        ensures
            m == *self,
    {
        Msg { role: self.role.clone(), content: self.content.clone() }
    }
}

/// Whether `c` lies in one of the CJK blocks that count one token per character.
pub open spec fn is_cjk_char(c: char) -> bool {
    let u = c as u32;
    ||| 0x3400 <= u <= 0x4DBF
    ||| 0x4E00 <= u <= 0x9FFF
    ||| 0x20000 <= u <= 0x2A6DF
    ||| 0x3040 <= u <= 0x30FF
    ||| 0xAC00 <= u <= 0xD7AF
    ||| 0x3000 <= u <= 0x303F
    ||| 0xFF00 <= u <= 0xFFEF
}

/// Number of CJK characters in `s`.
pub open spec fn cjk_count(s: Seq<char>) -> nat
    decreases s.len(),
{
    if s.len() == 0 {
        0
    } else {
        cjk_count(s.drop_last()) + if is_cjk_char(s.last()) { 1nat } else { 0nat }
    }
}

/// Estimated tokens: one per CJK character, one per four other characters
/// (rounded up).
pub open spec fn token_estimate(s: Seq<char>) -> nat {
    let cjk = cjk_count(s);
    let other = (s.len() - cjk) as nat;
    cjk + (other + 3) / 4
}

/// The smaller of two integers.
pub open spec fn min_int(a: int, b: int) -> int {
    if a <= b { a } else { b }
}

/// The contents of a list of messages.
pub open spec fn contents(ms: Seq<Msg>) -> Seq<Seq<char>> {
    ms.map_values(|m: Msg| m.content@)
}

/// What one history message costs against the budget.
pub open spec fn text_cost(c: Seq<char>) -> nat {
    token_estimate(c) + 4
}

/// Total cost of a list of message contents.
pub open spec fn total_cost(cs: Seq<Seq<char>>) -> nat
    decreases cs.len(),
{
    if cs.len() == 0 {
        0
    } else {
        total_cost(cs.drop_last()) + text_cost(cs.last())
    }
}

/// Index reached by dropping (user, assistant) pairs from the front while
/// over budget and more than two messages remain.
pub open spec fn pair_drop_index(cs: Seq<Seq<char>>, budget: nat, s: int) -> int
    decreases cs.len() - s,
{
    if 0 <= s && s + 2 < cs.len() && total_cost(cs.skip(s)) > budget {
        pair_drop_index(cs, budget, s + 2)
    } else {
        s
    }
}

/// Index reached by then dropping single messages while over budget and
/// more than one message remains.
pub open spec fn single_drop_index(cs: Seq<Seq<char>>, budget: nat, s: int) -> int
    decreases cs.len() - s,
{
    if 0 <= s && s + 1 < cs.len() && total_cost(cs.skip(s)) > budget {
        single_drop_index(cs, budget, s + 1)
    } else {
        s
    }
}

/// Index of the first message kept, by the messages' contents.
pub open spec fn kept_from(cs: Seq<Seq<char>>, budget: nat) -> int {
    if budget == 0 {
        cs.len() - 1
    } else {
        single_drop_index(cs, budget, pair_drop_index(cs, budget, 0))
    }
}

/// The trimmed history.
pub open spec fn trimmed_history(ms: Seq<Msg>, budget: nat) -> Seq<Msg> {
    if ms.len() == 0 {
        seq![]
    } else {
        ms.skip(kept_from(contents(ms), budget))
    }
}

/// CJK-aware token estimate for `text`.
pub fn estimate_tokens(text: &str) -> (n: usize)
    ensures
        n == token_estimate(text@),
{
    let v = chars_of(text);
    estimate_tokens_chars(v.as_slice())
}

/// Token estimate over a character slice.
pub fn estimate_tokens_chars(v: &[char]) -> (n: usize)
    ensures
        n == token_estimate(v@),
{
    let mut cjk: usize = 0;
    let mut i: usize = 0;
    while i < v.len()
        invariant
            0 <= i <= v.len(),
            cjk == cjk_count(v@.take(i as int)),
            cjk <= i,
        decreases v.len() - i,
    {
        assert(v@.take(i + 1).drop_last() =~= v@.take(i as int));
        if is_cjk(v[i]) {
            cjk = cjk + 1;
        }
        i = i + 1;
    }
    assert(v@.take(v.len() as int) =~= v@);
    let other = v.len() - cjk;
    let extra: usize = if other % 4 != 0 { 1 } else { 0 };
    assert(other / 4 + extra == (other + 3) / 4);
    cjk + other / 4 + extra
}

/// Whether `c` lies in one of the CJK blocks.
fn is_cjk(c: char) -> (r: bool)
    ensures
        r == is_cjk_char(c),
{
    let u = c as u32;
    (0x3400 <= u && u <= 0x4DBF) || (0x4E00 <= u && u <= 0x9FFF) || (0x20000 <= u && u <= 0x2A6DF)
        || (0x3040 <= u && u <= 0x30FF) || (0xAC00 <= u && u <= 0xD7AF) || (0x3000 <= u && u
        <= 0x303F) || (0xFF00 <= u && u <= 0xFFEF)
}

/// The text with `{{char}}` replaced by the character's name and `{{user}}`
/// by "用户".
pub open spec fn substituted(text: Seq<char>, char_name: Seq<char>) -> Seq<char> {
    replace_all(replace_all(text, "{{char}}"@, char_name), "{{user}}"@, "用户"@)
}

/// Replaces `{{char}}` and `{{user}}` in card and message text.
pub fn substitute_tokens(text: &str, char_name: &str) -> (r: String)
    ensures
        r@ == substituted(text@, char_name@),
{
    let t = chars_of(text);
    let name = chars_of(char_name);
    let char_tok = chars_of("{{char}}");
    let user_tok = chars_of("{{user}}");
    let user_name = chars_of("用户");
    proof {
        reveal_strlit("{{char}}");
        reveal_strlit("{{user}}");
    }
    let once = replace_chars(t.as_slice(), char_tok.as_slice(), name.as_slice());
    let twice = replace_chars(once.as_slice(), user_tok.as_slice(), user_name.as_slice());
    string_from_chars(twice.as_slice())
}


proof fn lemma_total_cost_concat(a: Seq<Seq<char>>, b: Seq<Seq<char>>)
    ensures
        total_cost(a + b) == total_cost(a) + total_cost(b),
    decreases b.len(),
{
    if b.len() > 0 {
        lemma_total_cost_concat(a, b.drop_last());
        assert((a + b).drop_last() =~= a + b.drop_last());
        assert((a + b).last() == b.last());
    } else {
        assert(a + b =~= a);
    }
}

proof fn lemma_total_cost_step(ms: Seq<Seq<char>>, s: int)
    requires
        0 <= s < ms.len(),
    ensures
        total_cost(ms.skip(s)) == text_cost(ms[s]) + total_cost(ms.skip(s + 1)),
{
    lemma_total_cost_concat(seq![ms[s]], ms.skip(s + 1));
    assert(seq![ms[s]] + ms.skip(s + 1) =~= ms.skip(s));
    assert(seq![ms[s]].drop_last() =~= Seq::<Seq<char>>::empty());
    assert(seq![ms[s]].last() == ms[s]);
    assert(total_cost(seq![ms[s]]) == total_cost(Seq::<Seq<char>>::empty()) + text_cost(ms[s]));
}

proof fn lemma_pair_drop_range(ms: Seq<Seq<char>>, budget: nat, s: int)
    requires
        0 <= s < ms.len(),
    ensures
        s <= pair_drop_index(ms, budget, s) < ms.len(),
        pair_drop_index(ms, budget, s) + 2 >= ms.len() || total_cost(
            ms.skip(pair_drop_index(ms, budget, s)),
        ) <= budget,
    decreases ms.len() - s,
{
    if s + 2 < ms.len() && total_cost(ms.skip(s)) > budget {
        lemma_pair_drop_range(ms, budget, s + 2);
    }
}

proof fn lemma_single_drop_range(ms: Seq<Seq<char>>, budget: nat, s: int)
    requires
        0 <= s < ms.len(),
    ensures
        s <= single_drop_index(ms, budget, s) < ms.len(),
        single_drop_index(ms, budget, s) + 1 >= ms.len() || total_cost(
            ms.skip(single_drop_index(ms, budget, s)),
        ) <= budget,
    decreases ms.len() - s,
{
    if s + 1 < ms.len() && total_cost(ms.skip(s)) > budget {
        lemma_single_drop_range(ms, budget, s + 1);
    }
}

/// The first kept message exists, and what is kept fits the budget unless it
/// is the newest message alone.
pub proof fn lemma_kept_from_range(ms: Seq<Seq<char>>, budget: nat)
    requires
        ms.len() > 0,
    ensures
        0 <= kept_from(ms, budget) < ms.len(),
        kept_from(ms, budget) + 1 == ms.len() || total_cost(ms.skip(kept_from(ms, budget)))
            <= budget,
        budget > 0 && total_cost(ms) <= budget ==> kept_from(ms, budget) == 0,
{
    if budget > 0 {
        lemma_pair_drop_range(ms, budget, 0);
        lemma_single_drop_range(ms, budget, pair_drop_index(ms, budget, 0));
        if total_cost(ms) <= budget {
            assert(ms.skip(0) =~= ms);
        }
    }
}

/// Trims the history to the token budget: whole (oldest) pairs are dropped
/// first while more than two messages remain, then single messages; the
/// newest message is always kept (a zero budget keeps only it).
pub fn trim_history(messages: &[Msg], max_context_tokens: usize) -> (r: Vec<Msg>)
    ensures
        r@ == trimmed_history(messages@, max_context_tokens as nat),
        exists|k: int| 0 <= k <= messages@.len() && r@ == messages@.skip(k),
        messages@.len() > 0 ==> r@.len() > 0 && r@.last() == messages@.last(),
        r@.len() > 1 ==> total_cost(contents(r@)) <= max_context_tokens,
        max_context_tokens > 0 && total_cost(contents(messages@)) <= max_context_tokens ==> r@
            == messages@,
{
    let n = messages.len();
    let ghost ms = messages@;
    let ghost cs = contents(ms);
    if n == 0 {
        let r: Vec<Msg> = Vec::new();
        assert(r@ =~= ms.skip(0));
        return r;
    }
    let budget = max_context_tokens as u128;
    let cap: u128 = 0x1_0000_0000_0000_0000;
    // suffix@[k] is the cost of the last k messages, capped at `cap`
    // (any value above the budget compares the same way).
    let mut suffix: Vec<u128> = Vec::new();
    suffix.push(0);
    assert(cs.skip(n as int) =~= Seq::<Seq<char>>::empty());
    let mut k: usize = 0;
    while k < n
        invariant
            n == ms.len(),
            ms == messages@,
            cs == contents(ms),
            0 <= k <= n,
            cap == 0x1_0000_0000_0000_0000u128,
            suffix@.len() == k + 1,
            forall|m: int|
                0 <= m <= k ==> #[trigger] suffix@[m] == min_int(total_cost(cs.skip(n - m)) as int, cap as int),
        decreases n - k,
    {
        let idx = n - 1 - k;
        let c = estimate_tokens(messages[idx].content.as_str()) as u128 + 4;
        let prev = suffix[k];
        proof {
            lemma_total_cost_step(cs, idx as int);
        }
        let v = if prev + c > cap { cap } else { prev + c };
        suffix.push(v);
        k = k + 1;
    }

    let mut start: usize = 0;
    if max_context_tokens == 0 {
        start = n - 1;
    } else {
        while n > 2 && start < n - 2 && suffix[n - start] > budget
            invariant
                n == ms.len(),
                ms == messages@,
            cs == contents(ms),
                0 <= start < n,
                max_context_tokens > 0,
                budget == max_context_tokens,
                cap == 0x1_0000_0000_0000_0000u128,
                suffix@.len() == n + 1,
                forall|m: int|
                    0 <= m <= n ==> #[trigger] suffix@[m] == min_int(total_cost(cs.skip(n - m)) as int, cap as int),
                pair_drop_index(cs, budget as nat, 0) == pair_drop_index(cs, budget as nat, start as int),
            decreases n - start,
        {
            assert(suffix@[n - start] == min_int(total_cost(cs.skip(start as int)) as int, cap as int));
            start = start + 2;
        }
        assert(suffix@[n - start] == min_int(total_cost(cs.skip(start as int)) as int, cap as int));
        let ghost after_pairs = start;
        assert(pair_drop_index(cs, budget as nat, 0) == after_pairs);
        while start < n - 1 && suffix[n - start] > budget
            invariant
                n == ms.len(),
                ms == messages@,
            cs == contents(ms),
                0 <= start < n,
                budget == max_context_tokens,
                cap == 0x1_0000_0000_0000_0000u128,
                suffix@.len() == n + 1,
                forall|m: int|
                    0 <= m <= n ==> #[trigger] suffix@[m] == min_int(total_cost(cs.skip(n - m)) as int, cap as int),
                single_drop_index(cs, budget as nat, after_pairs as int) == single_drop_index(cs, budget as nat, start as int),
            decreases n - start,
        {
            assert(suffix@[n - start] == min_int(total_cost(cs.skip(start as int)) as int, cap as int));
            start = start + 1;
        }
        assert(suffix@[n - start] == min_int(total_cost(cs.skip(start as int)) as int, cap as int));
    }
    assert(start == kept_from(cs, max_context_tokens as nat));
    let mut r: Vec<Msg> = Vec::new();
    let mut j = start;
    while j < n
        invariant
            n == ms.len(),
            ms == messages@,
            cs == contents(ms),
            start <= j <= n,
            r@ == ms.subrange(start as int, j as int),
        decreases n - j,
    {
        r.push(messages[j].duplicate());
        assert(ms.subrange(start as int, j as int).push(ms[j as int]) =~= ms.subrange(
            start as int,
            j + 1,
        ));
        j = j + 1;
    }
    assert(r@ =~= ms.skip(start as int));
    assert(contents(r@) =~= cs.skip(start as int));
    assert(cs.skip(0) =~= cs);
    proof {
        lemma_kept_from_range(cs, max_context_tokens as nat);
    }
    r
}

/// Whether `c` lies in one of the blocks that the estimate counts one token
/// per character: CJK Unified Ideographs with extensions A and B, hiragana
/// and katakana, Hangul syllables, CJK symbols and punctuation, and
/// half-width and full-width forms.
pub open spec fn in_one_token_blocks(c: char) -> bool {
    let u = c as u32;
    ||| (0x4E00 <= u && u <= 0x9FFF)
    ||| (0x3400 <= u && u <= 0x4DBF)
    ||| (0x20000 <= u && u <= 0x2A6DF)
    ||| (0xAC00 <= u && u <= 0xD7AF)
    ||| (0x3040 <= u && u <= 0x30FF)
    ||| (0x3000 <= u && u <= 0x303F)
    ||| (0xFF00 <= u && u <= 0xFFEF)
}

proof fn lemma_cjk_count_all(s: Seq<char>, all: bool)
    requires
        forall|i: int| 0 <= i < s.len() ==> is_cjk_char(#[trigger] s[i]) == all,
    ensures
        cjk_count(s) == if all { s.len() } else { 0 },
    decreases s.len(),
{
    if s.len() > 0 {
        let t = s.drop_last();
        assert forall|i: int| 0 <= i < t.len() implies is_cjk_char(#[trigger] t[i]) == all by {
            assert(t[i] == s[i]);
        }
        lemma_cjk_count_all(t, all);
        assert(is_cjk_char(s[s.len() - 1]) == all);
    }
}

/// Text made only of characters from the one-token blocks (Chinese, kana,
/// Hangul, CJK punctuation, full-width forms) is estimated at one token per
/// character.
pub proof fn lemma_cjk_text_one_token_per_char(s: Seq<char>)
    requires
        forall|i: int| 0 <= i < s.len() ==> in_one_token_blocks(#[trigger] s[i]),
    ensures
        token_estimate(s) == s.len(),
{
    assert forall|i: int| 0 <= i < s.len() implies is_cjk_char(#[trigger] s[i]) == true by {
        assert(in_one_token_blocks(s[i]));
    }
    lemma_cjk_count_all(s, true);
}

/// Text with no character from the one-token blocks is estimated at one
/// token per four characters, rounded up.
pub proof fn lemma_other_text_four_chars_per_token(s: Seq<char>)
    requires
        forall|i: int| 0 <= i < s.len() ==> !in_one_token_blocks(#[trigger] s[i]),
    ensures
        token_estimate(s) == (s.len() + 3) / 4,
{
    assert forall|i: int| 0 <= i < s.len() implies is_cjk_char(#[trigger] s[i]) == false by {
        assert(!in_one_token_blocks(s[i]));
    }
    lemma_cjk_count_all(s, false);
}

} // verus!
