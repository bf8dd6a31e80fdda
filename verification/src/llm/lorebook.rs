//! World-book injection: entry activation (constant / keyword / selective),
//! ordering by insertion order, budget cut-off and grouping by position.

use vstd::prelude::*;

use crate::llm::context::{estimate_tokens, token_estimate};
use crate::models::{LoreEntry, Lorebook, Message};
use crate::text::{
    chars_of, contains_chars, contains_seq, join, lowercase, push_chars, str_eq,
    string_from_chars, to_lower, trim, trim_chars, views,
};

verus! {

/// Injection result, grouped by position.
#[derive(Debug, Default, Clone)]
pub struct LoreInjection {
    pub before_char: Vec<String>,
    pub after_char: Vec<String>,
}

impl LoreInjection {
    /// Whether nothing is injected.
    pub fn is_empty(&self) -> (r: bool)
        ensures
            r == (self.before_char@.len() == 0 && self.after_char@.len() == 0),
    {
        self.before_char.len() == 0 && self.after_char.len() == 0
    }
}

/// The newest `depth` message contents, newest first.
pub open spec fn recent_contents(history: Seq<Message>, depth: nat) -> Seq<Seq<char>> {
    let k = if depth < history.len() { depth } else { history.len() };
    Seq::new(k, |i: int| history[history.len() - 1 - i].content@)
}

/// The scan text: the newest `depth` contents, newest first, one per line.
pub open spec fn scan_text(history: Seq<Message>, depth: nat) -> Seq<char> {
    join(recent_contents(history, depth), seq!['\n'])
}

/// Cuts the text that keywords are searched in from the newest `scan_depth`
/// messages.
pub fn scan_text_from(history: &[Message], scan_depth: usize) -> (r: String)
    ensures
        r@ == scan_text(history@, scan_depth as nat),
{
    let n = history.len();
    let k = if scan_depth < n { scan_depth } else { n };
    let ghost parts = recent_contents(history@, scan_depth as nat);
    let mut out = String::new();
    let mut i: usize = 0;
    while i < k
        invariant
            n == history@.len(),
            k <= n,
            parts.len() == k,
            parts == recent_contents(history@, scan_depth as nat),
            0 <= i <= k,
            out@ == join(parts.take(i as int), seq!['\n']),
        decreases k - i,
    {
        let ghost before = out@;
        let c = chars_of(history[n - 1 - i].content.as_str());
        if i > 0 {
            push_chars(&mut out, &['\n']);
        }
        push_chars(&mut out, c.as_slice());
        proof {
            let t = parts.take(i + 1);
            assert(t.drop_last() =~= parts.take(i as int));
            assert(t.last() == c@);
            if i == 0 {
                assert(before =~= Seq::<char>::empty());
                assert(out@ =~= c@);
            } else {
                assert(out@ =~= before + seq!['\n'] + c@);
            }
        }
        i = i + 1;
    }
    assert(parts.take(k as int) =~= parts);
    out
}

/// Whether one of `keys`, trimmed and lowercased, is non-empty and occurs in
/// the lowercased scan text.
pub open spec fn key_hit(lower_scan: Seq<char>, keys: Seq<String>) -> bool {
    exists|k: int|
        0 <= k < keys.len() && #[trigger] lowercase(trim(keys[k]@)).len() > 0 && contains_seq(
            lower_scan,
            lowercase(trim(keys[k]@)),
        )
}

/// Whether an entry takes part in the injection.
pub open spec fn entry_active(e: LoreEntry, lower_scan: Seq<char>) -> bool {
    &&& e.enabled
    &&& trim(e.content@).len() > 0
    &&& if e.constant {
        true
    } else if e.selective {
        key_hit(lower_scan, e.keys@) && key_hit(lower_scan, e.secondary_keys@)
    } else {
        key_hit(lower_scan, e.keys@)
    }
}

/// Entry `i` goes before entry `j`: smaller insertion order, ties kept in
/// list order.
pub open spec fn injected_before(es: Seq<LoreEntry>, i: int, j: int) -> bool {
    es[i].insertion_order < es[j].insertion_order || (es[i].insertion_order
        == es[j].insertion_order && i < j)
}

/// `ord` lists exactly the active entries, in injection order.
pub open spec fn is_injection_order(es: Seq<LoreEntry>, lower_scan: Seq<char>, ord: Seq<int>) -> bool {
    &&& forall|p: int|
        0 <= p < ord.len() ==> 0 <= #[trigger] ord[p] < es.len() && entry_active(
            es[ord[p]],
            lower_scan,
        )
    &&& forall|i: int| 0 <= i < es.len() && entry_active(es[i], lower_scan) ==> ord.contains(i)
    &&& forall|p: int, q: int|
        0 <= p < q < ord.len() ==> injected_before(es, #[trigger] ord[p], #[trigger] ord[q])
}

/// What one injected entry costs against the budget.
pub open spec fn lore_cost(e: LoreEntry) -> nat {
    token_estimate(e.content@) + 8
}

/// How many entries, taken in order, fit the budget (stopping at the first
/// that does not).
pub open spec fn fitting_count(es: Seq<LoreEntry>, ord: Seq<int>, budget: int) -> nat
    decreases ord.len(),
{
    if ord.len() == 0 {
        0
    } else if lore_cost(es[ord[0]]) > budget {
        0
    } else {
        1 + fitting_count(es, ord.drop_first(), budget - lore_cost(es[ord[0]]))
    }
}

/// Whether an entry goes after the character definition.
pub open spec fn is_after_char(e: LoreEntry) -> bool {
    e.position@ == "after_char"@
}

/// Contents of the listed entries on one side of the character definition.
pub open spec fn grouped(es: Seq<LoreEntry>, ord: Seq<int>, after: bool) -> Seq<Seq<char>>
    decreases ord.len(),
{
    if ord.len() == 0 {
        seq![]
    } else {
        let rest = grouped(es, ord.drop_last(), after);
        if is_after_char(es[ord.last()]) == after {
            rest.push(es[ord.last()].content@)
        } else {
            rest
        }
    }
}

/// The injected entries in order.
pub open spec fn injected(es: Seq<LoreEntry>, ord: Seq<int>, budget: int) -> Seq<int> {
    ord.take(fitting_count(es, ord, budget) as int)
}


/// Whether one of `keys` hits the lowercased scan text.
fn keys_hit(lower_scan: &[char], keys: &Vec<String>) -> (r: bool)
    ensures
        r == key_hit(lower_scan@, keys@),
{
    let mut k: usize = 0;
    while k < keys.len()
        invariant
            0 <= k <= keys.len(),
            forall|j: int|
                0 <= j < k ==> !(#[trigger] lowercase(trim(keys@[j]@)).len() > 0 && contains_seq(
                    lower_scan@,
                    lowercase(trim(keys@[j]@)),
                )),
        decreases keys.len() - k,
    {
        let raw = chars_of(keys[k].as_str());
        let trimmed = trim_chars(raw.as_slice());
        let ts = string_from_chars(trimmed.as_slice());
        let lowered = to_lower(ts.as_str());
        let lv = chars_of(lowered.as_str());
        if lv.len() > 0 && contains_chars(lower_scan, lv.as_slice()) {
            assert(lowercase(trim(keys@[k as int]@)).len() > 0);
            return true;
        }
        k = k + 1;
    }
    false
}

/// Whether an entry takes part in the injection.
fn is_active(e: &LoreEntry, lower_scan: &[char]) -> (r: bool)
    ensures
        r == entry_active(*e, lower_scan@),
{
    if !e.enabled {
        return false;
    }
    let content = chars_of(e.content.as_str());
    let trimmed = trim_chars(content.as_slice());
    if trimmed.len() == 0 {
        return false;
    }
    if e.constant {
        true
    } else if e.selective {
        keys_hit(lower_scan, &e.keys) && keys_hit(lower_scan, &e.secondary_keys)
    } else {
        keys_hit(lower_scan, &e.keys)
    }
}

/// Ordering is sorted by injection order.
spec fn sorted_by_injection(es: Seq<LoreEntry>, ord: Seq<int>) -> bool {
    forall|p: int, q: int|
        0 <= p < q < ord.len() ==> injected_before(es, #[trigger] ord[p], #[trigger] ord[q])
}

/// The active entries, in injection order.
fn injection_order(entries: &[LoreEntry], lower_scan: &[char]) -> (ord: Vec<usize>)
    ensures
        is_injection_order(entries@, lower_scan@, ord@.map_values(|i: usize| i as int)),
{
    let ghost es = entries@;
    let mut ord: Vec<usize> = Vec::new();
    let mut i: usize = 0;
    while i < entries.len()
        invariant
            es == entries@,
            0 <= i <= entries.len(),
            forall|p: int| 0 <= p < ord@.len() ==> 0 <= #[trigger] ord@[p] < i && entry_active(
                es[ord@[p] as int],
                lower_scan@,
            ),
            forall|j: int|
                0 <= j < i && entry_active(es[j], lower_scan@) ==> ord@.map_values(
                    |x: usize| x as int,
                ).contains(j),
            sorted_by_injection(es, ord@.map_values(|x: usize| x as int)),
        decreases entries.len() - i,
    {
        if is_active(&entries[i], lower_scan) {
            let key = entries[i].insertion_order;
            let mut p: usize = 0;
            while p < ord.len() && entries[ord[p]].insertion_order <= key
                invariant
                    es == entries@,
                    i < entries.len(),
                    0 <= p <= ord@.len(),
                    forall|q: int| 0 <= q < ord@.len() ==> 0 <= #[trigger] ord@[q] < i,
                    forall|q: int| 0 <= q < p ==> es[#[trigger] ord@[q] as int].insertion_order <= key,
                decreases ord@.len() - p,
            {
                p = p + 1;
            }
            let ghost old_ord = ord@.map_values(|x: usize| x as int);
            let ghost oldv = ord@;
            ord.insert(p, i);
            proof {
                let m = ord@.map_values(|x: usize| x as int);
                assert(m =~= old_ord.insert(p as int, i as int));
                assert forall|a: int, b: int|
                    0 <= a < b < m.len() implies injected_before(es, #[trigger] m[a], #[trigger] m[b]) by {
                    if a < p && b < p {
                        assert(injected_before(es, old_ord[a], old_ord[b]));
                    } else if a < p && b == p {
                        assert(es[old_ord[a]].insertion_order <= key);
                    } else if a < p && b > p {
                        assert(injected_before(es, old_ord[a], old_ord[b - 1]));
                    } else if a == p {
                        // every entry from p on has a larger key
                        assert(es[oldv[p as int] as int].insertion_order > key);
                        if b - 1 > p {
                            assert(injected_before(es, old_ord[p as int], old_ord[b - 1]));
                        }
                    } else {
                        assert(injected_before(es, old_ord[a - 1], old_ord[b - 1]));
                    }
                }
                assert forall|j: int|
                    0 <= j < i + 1 && entry_active(es[j], lower_scan@) implies m.contains(j) by {
                    if j < i {
                        let w = choose|w: int| 0 <= w < old_ord.len() && old_ord[w] == j;
                        if w < p {
                            assert(m[w] == j);
                        } else {
                            assert(m[w + 1] == j);
                        }
                    } else {
                        assert(m[p as int] == j);
                    }
                }
                assert forall|q: int| 0 <= q < ord@.len() implies 0 <= #[trigger] ord@[q] < i + 1
                    && entry_active(es[ord@[q] as int], lower_scan@) by {
                    if q < p {
                        assert(ord@[q] == oldv[q]);
                    } else if q > p {
                        assert(ord@[q] == oldv[q - 1]);
                    }
                }
            }
        } else {
            proof {
                let m = ord@.map_values(|x: usize| x as int);
                assert forall|j: int|
                    0 <= j < i + 1 && entry_active(es[j], lower_scan@) implies m.contains(j) by {
                }
            }
        }
        i = i + 1;
    }
    let ghost m = ord@.map_values(|x: usize| x as int);
    assert forall|p: int| 0 <= p < m.len() implies 0 <= #[trigger] m[p] < es.len() && entry_active(
        es[m[p]],
        lower_scan@,
    ) by {
        assert(m[p] == ord@[p] as int);
    }
    ord
}


proof fn lemma_fitting_step(es: Seq<LoreEntry>, ord: Seq<int>, t: int, budget: int)
    requires
        0 <= t < ord.len(),
        lore_cost(es[ord[t]]) <= budget,
    ensures
        fitting_count(es, ord.skip(t), budget) == 1 + fitting_count(
            es,
            ord.skip(t + 1),
            budget - lore_cost(es[ord[t]]),
        ),
{
    assert(ord.skip(t).drop_first() =~= ord.skip(t + 1));
}

proof fn lemma_grouped_step(es: Seq<LoreEntry>, ord: Seq<int>, t: int, after: bool)
    requires
        0 <= t < ord.len(),
    ensures
        grouped(es, ord.take(t + 1), after) == if is_after_char(es[ord[t]]) == after {
            grouped(es, ord.take(t), after).push(es[ord[t]].content@)
        } else {
            grouped(es, ord.take(t), after)
        },
{
    assert(ord.take(t + 1).drop_last() =~= ord.take(t));
}

/// Whether `out` is the injection of `es` for the lowercased scan text and
/// the budget: the active entries in injection order, cut at the first
/// that does not fit, grouped by position.
pub open spec fn is_injection(out: LoreInjection, es: Seq<LoreEntry>, lower_scan: Seq<char>, budget: int) -> bool {
    exists|ord: Seq<int>|
        {
            &&& is_injection_order(es, lower_scan, ord)
            &&& views(out.before_char@) == grouped(es, injected(es, ord, budget), false)
            &&& views(out.after_char@) == grouped(es, injected(es, ord, budget), true)
        }
}

/// Activates entries against the scan text, orders them by insertion order,
/// injects them in that order until the first one that no longer fits the
/// token budget, and groups the injected contents by position.
pub fn build_lore_injection(entries: &[LoreEntry], scan_text: &str, token_budget: usize) -> (out:
    LoreInjection)
    ensures
        is_injection(out, entries@, lowercase(scan_text@), token_budget as int),
{
    let lowered = to_lower(scan_text);
    let lower_scan = chars_of(lowered.as_str());
    let ord = injection_order(entries, lower_scan.as_slice());
    let ghost es = entries@;
    let ghost m = ord@.map_values(|x: usize| x as int);
    let mut before_char: Vec<String> = Vec::new();
    let mut after_char: Vec<String> = Vec::new();
    let mut used: usize = 0;
    let mut t: usize = 0;
    assert(m.skip(0) =~= m);
    assert(m.take(0) =~= Seq::<int>::empty());
    if ord.len() == 0 {
        assert(m.skip(0) =~= Seq::<int>::empty());
    }
    while t < ord.len()
        invariant
            es == entries@,
            m == ord@.map_values(|x: usize| x as int),
            is_injection_order(es, lowercase(scan_text@), m),
            0 <= t <= ord@.len(),
            used <= token_budget,
            fitting_count(es, m, token_budget as int) == t + fitting_count(
                es,
                m.skip(t as int),
                token_budget - used,
            ),
            views(before_char@) == grouped(es, m.take(t as int), false),
            views(after_char@) == grouped(es, m.take(t as int), true),
        ensures
            t == fitting_count(es, m, token_budget as int),
            views(before_char@) == grouped(es, m.take(t as int), false),
            views(after_char@) == grouped(es, m.take(t as int), true),
        decreases ord@.len() - t,
    {
        let idx = ord[t];
        assert(m[t as int] == idx as int);
        assert(0 <= idx < es.len());
        let e = &entries[idx];
        let est = estimate_tokens(e.content.as_str());
        let rem = token_budget - used;
        if est > rem || 8 > rem - est {
            assert(m.skip(t as int)[0] == m[t as int]);
            assert(fitting_count(es, m.skip(t as int), token_budget - used) == 0);
            break;
        }
        if t + 1 == ord.len() {
            assert(m.skip(t + 1) =~= Seq::<int>::empty());
        }
        proof {
            lemma_fitting_step(es, m, t as int, token_budget - used);
            lemma_grouped_step(es, m, t as int, false);
            lemma_grouped_step(es, m, t as int, true);
        }
        used = used + est + 8;
        let is_after = str_eq(e.position.as_str(), "after_char");
        assert(es[m[t as int]] == *e);
        assert(is_after == (e.position@ == "after_char"@));
        assert(is_after == is_after_char(es[m[t as int]]));
        let ghost old_before = before_char@;
        let ghost old_after = after_char@;
        if is_after {
            after_char.push(e.content.clone());
            assert(views(after_char@) =~= views(old_after).push(e.content@));
        } else {
            before_char.push(e.content.clone());
            assert(views(before_char@) =~= views(old_before).push(e.content@));
        }
        t = t + 1;
    }
    LoreInjection { before_char, after_char }
}

/// `ord` lists exactly the members of `s`, sorted by injection order.
spec fn enumerates(es: Seq<LoreEntry>, s: Set<int>, ord: Seq<int>) -> bool {
    &&& forall|p: int| 0 <= p < ord.len() ==> s.contains(#[trigger] ord[p])
    &&& forall|i: int| s.contains(i) ==> ord.contains(i)
    &&& sorted_by_injection(es, ord)
}

proof fn lemma_enumerates_unique(es: Seq<LoreEntry>, s: Set<int>, a: Seq<int>, b: Seq<int>)
    requires
        enumerates(es, s, a),
        enumerates(es, s, b),
    ensures
        a == b,
    decreases a.len(),
{
    if a.len() == 0 {
        if b.len() > 0 {
            assert(s.contains(b[0]));
            assert(a.contains(b[0]));
        }
        assert(a =~= b);
    } else {
        assert(s.contains(a[0]));
        assert(b.contains(a[0]));
        let q = choose|q: int| 0 <= q < b.len() && b[q] == a[0];
        assert(s.contains(b[0]));
        assert(a.contains(b[0]));
        let p = choose|p: int| 0 <= p < a.len() && a[p] == b[0];
        if q > 0 {
            assert(injected_before(es, b[0], b[q]));
            if p > 0 {
                assert(injected_before(es, a[0], a[p]));
            }
            assert(false);
        }
        let x = a[0];
        let s2 = s.remove(x);
        let a2 = a.drop_first();
        let b2 = b.drop_first();
        assert forall|p2: int| 0 <= p2 < a2.len() implies s2.contains(#[trigger] a2[p2]) by {
            assert(injected_before(es, a[0], a[p2 + 1]));
        }
        assert forall|p2: int| 0 <= p2 < b2.len() implies s2.contains(#[trigger] b2[p2]) by {
            assert(injected_before(es, b[0], b[p2 + 1]));
        }
        assert forall|i: int| s2.contains(i) implies a2.contains(i) by {
            let w = choose|w: int| 0 <= w < a.len() && a[w] == i;
            assert(a2[w - 1] == i);
        }
        assert forall|i: int| s2.contains(i) implies b2.contains(i) by {
            let w = choose|w: int| 0 <= w < b.len() && b[w] == i;
            assert(b2[w - 1] == i);
        }
        assert forall|p2: int, q2: int| 0 <= p2 < q2 < a2.len() implies injected_before(
            es,
            #[trigger] a2[p2],
            #[trigger] a2[q2],
        ) by {
            assert(injected_before(es, a[p2 + 1], a[q2 + 1]));
        }
        assert forall|p2: int, q2: int| 0 <= p2 < q2 < b2.len() implies injected_before(
            es,
            #[trigger] b2[p2],
            #[trigger] b2[q2],
        ) by {
            assert(injected_before(es, b[p2 + 1], b[q2 + 1]));
        }
        lemma_enumerates_unique(es, s2, a2, b2);
        assert(a =~= seq![x] + a2);
        assert(b =~= seq![x] + b2);
    }
}

/// The injection order is determined by the entries and the scan text:
/// any two lists that meet `is_injection_order` are equal.
pub proof fn lemma_injection_order_unique(
    es: Seq<LoreEntry>,
    lower_scan: Seq<char>,
    a: Seq<int>,
    b: Seq<int>,
)
    requires
        is_injection_order(es, lower_scan, a),
        is_injection_order(es, lower_scan, b),
    ensures
        a == b,
{
    let s = Set::new(|i: int| 0 <= i < es.len() && entry_active(es[i], lower_scan));
    assert forall|p: int| 0 <= p < a.len() implies s.contains(#[trigger] a[p]) by {}
    assert forall|p: int| 0 <= p < b.len() implies s.contains(#[trigger] b[p]) by {}
    lemma_enumerates_unique(es, s, a, b);
}

/// The world-book injection for a conversation: nothing without an enabled
/// book that has entries; otherwise the book's entries against the newest
/// `scan_depth` messages, within its token budget.
pub fn lore_for_book(book: Option<&Lorebook>, history: &[Message]) -> (r: LoreInjection)
    ensures
        (book matches Some(b) && b.enabled && b.entries@.len() > 0) ==> ({
            let b = book.unwrap();
            is_injection(
                r,
                b.entries@,
                lowercase(scan_text(history@, (b.scan_depth as usize) as nat)),
                (b.token_budget as usize) as int,
            )
        }),
        !(book matches Some(b) && b.enabled && b.entries@.len() > 0) ==> r.before_char@.len() == 0
            && r.after_char@.len() == 0,
{
    match book {
        Some(b) => {
            if b.enabled && b.entries.len() > 0 {
                let text = scan_text_from(history, b.scan_depth as usize);
                build_lore_injection(b.entries.as_slice(), text.as_str(), b.token_budget as usize)
            } else {
                LoreInjection { before_char: Vec::new(), after_char: Vec::new() }
            }
        },
        None => LoreInjection { before_char: Vec::new(), after_char: Vec::new() },
    }
}

/// Every text grouped on one side comes from a listed entry on that side.
proof fn lemma_grouped_from(es: Seq<LoreEntry>, o: Seq<int>, after: bool)
    ensures
        forall|p: int|
            0 <= p < grouped(es, o, after).len() ==> exists|q: int|
                0 <= q < o.len() && #[trigger] grouped(es, o, after)[p] == es[o[q]].content@
                    && is_after_char(es[o[q]]) == after,
    decreases o.len(),
{
    if o.len() > 0 {
        let t = o.drop_last();
        lemma_grouped_from(es, t, after);
        let g = grouped(es, o, after);
        let gt = grouped(es, t, after);
        let last = o.len() - 1;
        assert(o.last() == o[last]);
        assert forall|p: int| 0 <= p < g.len() implies exists|q: int|
            0 <= q < o.len() && #[trigger] g[p] == es[o[q]].content@ && is_after_char(es[o[q]]) == after by {
            if p < gt.len() {
                assert(g[p] == gt[p]);
                let q = choose|q: int|
                    0 <= q < t.len() && #[trigger] gt[p] == es[t[q]].content@ && is_after_char(es[t[q]]) == after;
                assert(t[q] == o[q]);
                assert(0 <= q < o.len() && g[p] == es[o[q]].content@ && is_after_char(es[o[q]]) == after);
            } else {
                assert(is_after_char(es[o[last]]) == after);
                assert(g[p] == es[o[last]].content@);
                assert(0 <= last < o.len() && g[p] == es[o[last]].content@ && is_after_char(es[o[last]]) == after);
            }
        }
    }
}

proof fn lemma_fitting_count_bound(es: Seq<LoreEntry>, ord: Seq<int>, budget: int)
    ensures
        fitting_count(es, ord, budget) <= ord.len(),
    decreases ord.len(),
{
    if ord.len() > 0 && lore_cost(es[ord[0]]) <= budget {
        lemma_fitting_count_bound(es, ord.drop_first(), budget - lore_cost(es[ord[0]]));
    }
}

/// Whether an entry may be injected: enabled, with non-blank content, and
/// either constant or hit by one of its keys (a selective entry needs a
/// primary and a secondary key hit).
pub open spec fn may_inject(e: LoreEntry, lower_scan: Seq<char>) -> bool {
    e.enabled && trim(e.content@).len() > 0 && (e.constant || (key_hit(lower_scan, e.keys@) && (
    !e.selective || key_hit(lower_scan, e.secondary_keys@))))
}

/// The entry a text of an injection comes from.
proof fn lemma_injected_at(out: LoreInjection, es: Seq<LoreEntry>, lower_scan: Seq<char>, budget: int, p: int, after: bool) -> (j: int)
    requires
        is_injection(out, es, lower_scan, budget),
        0 <= p < (if after { out.after_char@.len() } else { out.before_char@.len() }),
    ensures
        0 <= j < es.len(),
        may_inject(es[j], lower_scan),
        is_after_char(es[j]) == after,
        es[j].content@ == (if after { out.after_char@[p]@ } else { out.before_char@[p]@ }),
{
    let ord = choose|ord: Seq<int>|
        {
            &&& is_injection_order(es, lower_scan, ord)
            &&& views(out.before_char@) == grouped(es, injected(es, ord, budget), false)
            &&& views(out.after_char@) == grouped(es, injected(es, ord, budget), true)
        };
    let inj = injected(es, ord, budget);
    lemma_fitting_count_bound(es, ord, budget);
    lemma_grouped_from(es, inj, after);
    let g = grouped(es, inj, after);
    if after {
        assert(views(out.after_char@)[p] == out.after_char@[p]@);
    } else {
        assert(views(out.before_char@)[p] == out.before_char@[p]@);
    }
    assert(g[p] == (if after { out.after_char@[p]@ } else { out.before_char@[p]@ }));
    let q = choose|q: int| 0 <= q < inj.len() && #[trigger] g[p] == es[inj[q]].content@ && is_after_char(es[inj[q]]) == after;
    assert(inj[q] == ord[q]);
    let j = ord[q];
    assert(entry_active(es[j], lower_scan));
    j
}

/// Whether `text` is the content of an entry that may be injected and
/// stands on the given side of the character.
pub open spec fn injected_from(es: Seq<LoreEntry>, lower_scan: Seq<char>, text: Seq<char>, after: bool) -> bool {
    exists|j: int|
        0 <= j < es.len() && may_inject(#[trigger] es[j], lower_scan) && is_after_char(es[j]) == after
            && es[j].content@ == text
}

/// What an injection holds: each text placed before the character is the
/// content of an entry that may be injected and is not placed `after_char`;
/// each text placed after it, of one that may be injected and is placed
/// `after_char`. A disabled entry, or a keyword entry whose keys do not
/// occur, is never injected.
pub proof fn lemma_injection_entries(out: LoreInjection, es: Seq<LoreEntry>, lower_scan: Seq<char>, budget: int)
    requires
        is_injection(out, es, lower_scan, budget),
    ensures
        forall|p: int|
            0 <= p < out.before_char@.len() ==> injected_from(es, lower_scan, (#[trigger] out.before_char@[p])@, false),
        forall|p: int|
            0 <= p < out.after_char@.len() ==> injected_from(es, lower_scan, (#[trigger] out.after_char@[p])@, true),
{
    assert forall|p: int| 0 <= p < out.before_char@.len() implies injected_from(
        es,
        lower_scan,
        (#[trigger] out.before_char@[p])@,
        false,
    ) by {
        let j = lemma_injected_at(out, es, lower_scan, budget, p, false);
        assert(is_after_char(es[j]) == false);
    }
    assert forall|p: int| 0 <= p < out.after_char@.len() implies injected_from(
        es,
        lower_scan,
        (#[trigger] out.after_char@[p])@,
        true,
    ) by {
        let j = lemma_injected_at(out, es, lower_scan, budget, p, true);
        assert(is_after_char(es[j]) == true);
    }
}

} // verus!
