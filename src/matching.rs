//! Byte-level wildcard matching: `*` stands for any run of bytes (possibly
//! empty), `?` for exactly one byte, and every other byte for itself.
use vstd::prelude::*;

verus! {

/// The byte `*`: any run of bytes, possibly empty.
pub const WILDCARD_MANY: u8 = 42;

/// The byte `?`: exactly one byte.
pub const WILDCARD_ONE: u8 = 63;

/// Whether `t[i..]` is matched by `p[j..]`.
pub open spec fn match_from(t: Seq<u8>, p: Seq<u8>, i: int, j: int) -> bool
    decreases t.len() + p.len() - i - j,
{
    if i < 0 || j < 0 || i > t.len() || j > p.len() {
        false
    } else if j == p.len() {
        i == t.len()
    } else if p[j] == WILDCARD_MANY {
        match_from(t, p, i, j + 1) || (i < t.len() && match_from(t, p, i + 1, j))
    } else {
        i < t.len() && (p[j] == WILDCARD_ONE || p[j] == t[i]) && match_from(t, p, i + 1, j + 1)
    }
}

/// Whether the whole of `topic` is matched by the whole of `pattern`.
pub open spec fn wildcard_match(topic: Seq<u8>, pattern: Seq<u8>) -> bool {
    match_from(topic, pattern, 0, 0)
}

/// A pattern without wildcard bytes.
pub open spec fn is_literal(pattern: Seq<u8>) -> bool {
    forall|k: int| 0 <= k < pattern.len() ==> pattern[k] != WILDCARD_MANY && pattern[k] != WILDCARD_ONE
}

pub open spec fn pow3(k: nat) -> nat
    decreases k,
{
    if k == 0 {
        1
    } else {
        3 * pow3((k - 1) as nat)
    }
}

proof fn lemma_pow3_positive(k: nat)
    ensures
        pow3(k) >= 1,
    decreases k,
{
    if k > 0 {
        lemma_pow3_positive((k - 1) as nat);
    }
}

/// How much work a pending state `(i, j)` may still cause.
spec fn state_weight(n: nat, m: nat, s: (usize, usize)) -> nat {
    pow3(((n - s.0) + (m - s.1)) as nat)
}

spec fn stack_weight(n: nat, m: nat, stack: Seq<(usize, usize)>) -> nat
    decreases stack.len(),
{
    if stack.len() == 0 {
        0
    } else {
        stack_weight(n, m, stack.drop_last()) + state_weight(n, m, stack.last())
    }
}

proof fn lemma_stack_weight_push(n: nat, m: nat, stack: Seq<(usize, usize)>, s: (usize, usize))
    ensures
        stack_weight(n, m, stack.push(s)) == stack_weight(n, m, stack) + state_weight(n, m, s),
{
    assert(stack.push(s).drop_last() =~= stack);
}

/// Decides `wildcard_match` with an explicit stack of pending `(topic, pattern)`
/// positions; at each `*` the state that skips the wildcard is pushed before the
/// wildcard consumes one more topic byte.
pub fn is_matching(topic: &[u8], pattern: &[u8]) -> (r: bool)
    ensures
        r == wildcard_match(topic@, pattern@),
{
    let n = topic.len();
    let m = pattern.len();
    let ghost t = topic@;
    let ghost p = pattern@;
    let mut stack: Vec<(usize, usize)> = Vec::new();
    stack.push((0, 0));
    proof {
        assert(stack@[0] == (0usize, 0usize));
        if wildcard_match(t, p) {
            assert(match_from(t, p, stack@[0].0 as int, stack@[0].1 as int));
        }
    }
    while stack.len() > 0
        invariant
            n == t.len(),
            m == p.len(),
            t == topic@,
            p == pattern@,
            forall|k: int|
                0 <= k < stack@.len() ==> #[trigger] stack@[k].0 <= n && stack@[k].1 <= m,
            forall|k: int|
                0 <= k < stack@.len() ==> (match_from(t, p, #[trigger] stack@[k].0 as int, stack@[k].1 as int)
                    ==> wildcard_match(t, p)),
            wildcard_match(t, p) ==> exists|k: int|
                0 <= k < stack@.len() && match_from(t, p, #[trigger] stack@[k].0 as int, stack@[k].1 as int),
        decreases stack_weight(n as nat, m as nat, stack@),
    {
        let ghost before = stack@;
        let top = stack.pop();
        let (mut i, mut j) = match top {
            Some(s) => s,
            None => { return false; },
        };
        proof {
            assert(before.drop_last() =~= stack@);
            assert(before[before.len() - 1] == (i, j));
            assert forall|k: int| 0 <= k < stack@.len() implies stack@[k] == before[k] by {}
            if wildcard_match(t, p) {
                let k = choose|k: int|
                    0 <= k < before.len() && match_from(t, p, #[trigger] before[k].0 as int, before[k].1 as int);
                if k < stack@.len() {
                    assert(stack@[k] == before[k]);
                }
            }
        }
        let ghost w0 = stack_weight(n as nat, m as nat, stack@);
        let ghost k0 = state_weight(n as nat, m as nat, (i, j));
        loop
            invariant_except_break
                2 * stack_weight(n as nat, m as nat, stack@) + state_weight(n as nat, m as nat, (i, j))
                    <= 2 * w0 + k0,
            invariant
                n == t.len(),
                m == p.len(),
                t == topic@,
                p == pattern@,
                i <= n,
                j <= m,
                forall|k: int|
                    0 <= k < stack@.len() ==> #[trigger] stack@[k].0 <= n && stack@[k].1 <= m,
                forall|k: int|
                    0 <= k < stack@.len() ==> (match_from(t, p, #[trigger] stack@[k].0 as int, stack@[k].1 as int)
                        ==> wildcard_match(t, p)),
                match_from(t, p, i as int, j as int) ==> wildcard_match(t, p),
                wildcard_match(t, p) ==> match_from(t, p, i as int, j as int) || exists|k: int|
                    0 <= k < stack@.len() && match_from(t, p, #[trigger] stack@[k].0 as int, stack@[k].1 as int),
            ensures
                forall|k: int|
                    0 <= k < stack@.len() ==> #[trigger] stack@[k].0 <= n && stack@[k].1 <= m,
                forall|k: int|
                    0 <= k < stack@.len() ==> (match_from(t, p, #[trigger] stack@[k].0 as int, stack@[k].1 as int)
                        ==> wildcard_match(t, p)),
                wildcard_match(t, p) ==> exists|k: int|
                    0 <= k < stack@.len() && match_from(t, p, #[trigger] stack@[k].0 as int, stack@[k].1 as int),
                2 * stack_weight(n as nat, m as nat, stack@) < 2 * w0 + 2 * k0,
            decreases (n - i) + (m - j),
        {
            proof {
                lemma_pow3_positive(((n - i) + (m - j)) as nat);
            }
            if i == n && j == m {
                return true;
            }
            if j == m {
                break;
            }
            if pattern[j] == WILDCARD_MANY {
                proof {
                    lemma_stack_weight_push(n as nat, m as nat, stack@, (i, (j + 1) as usize));
                    lemma_pow3_positive(((n - i) + (m - j) - 1) as nat);
                    assert(pow3(((n - i) + (m - j)) as nat) == 3 * pow3(((n - i) + (m - j) - 1) as nat));
                }
                let ghost old_stack = stack@;
                stack.push((i, j + 1));
                proof {
                    assert(stack@[stack@.len() - 1] == (i, (j + 1) as usize));
                    assert forall|k: int| 0 <= k < old_stack.len() implies stack@[k] == old_stack[k] by {}
                }
                if i < n {
                    i += 1;
                    continue;
                }
                break;
            } else if i < n && (pattern[j] == WILDCARD_ONE || topic[i] == pattern[j]) {
                proof {
                    assert(pow3(((n - i) + (m - j)) as nat) == 3 * pow3(((n - i) + (m - j) - 1) as nat));
                    assert(pow3(((n - i) + (m - j) - 1) as nat) == 3 * pow3(((n - i) + (m - j) - 2) as nat));
                }
                i += 1;
                j += 1;
                continue;
            }
            break;
        }
    }
    false
}

/// A pattern without wildcards matches exactly the topic equal to it.
pub proof fn lemma_literal_pattern_matches_itself_only(topic: Seq<u8>, pattern: Seq<u8>)
    requires
        is_literal(pattern),
    ensures
        wildcard_match(topic, pattern) <==> topic == pattern,
{
    lemma_literal_from(topic, pattern, 0);
    if topic == pattern {
        assert(topic.subrange(0, topic.len() as int) =~= topic);
    }
    if wildcard_match(topic, pattern) {
        assert(topic =~= topic.subrange(0, topic.len() as int));
        assert(pattern =~= pattern.subrange(0, pattern.len() as int));
    }
}

proof fn lemma_literal_from(t: Seq<u8>, p: Seq<u8>, i: int)
    requires
        is_literal(p),
        0 <= i,
    ensures
        match_from(t, p, i, i) <==> (i <= t.len() && i <= p.len() && t.len() == p.len()
            && t.subrange(i, t.len() as int) =~= p.subrange(i, p.len() as int)),
    decreases t.len() + p.len() - 2 * i,
{
    if i > t.len() || i > p.len() {
    } else if i == p.len() {
    } else if i == t.len() {
    } else {
        lemma_literal_from(t, p, i + 1);
        if match_from(t, p, i, i) {
            assert(t.subrange(i, t.len() as int) =~= seq![t[i]] + t.subrange(i + 1, t.len() as int));
            assert(p.subrange(i, p.len() as int) =~= seq![p[i]] + p.subrange(i + 1, p.len() as int));
        }
        if i <= t.len() && i <= p.len() && t.len() == p.len() && t.subrange(i, t.len() as int)
            =~= p.subrange(i, p.len() as int) {
            assert(t.subrange(i, t.len() as int)[0] == t[i]);
            assert(p.subrange(i, p.len() as int)[0] == p[i]);
            assert(t.subrange(i + 1, t.len() as int) =~= t.subrange(i, t.len() as int).subrange(1, t.len() - i));
            assert(p.subrange(i + 1, p.len() as int) =~= p.subrange(i, p.len() as int).subrange(1, p.len() - i));
        }
    }
}

/// The pattern `*` alone matches every topic.
pub proof fn lemma_lone_star_matches_all(topic: Seq<u8>)
    ensures
        wildcard_match(topic, seq![WILDCARD_MANY]),
{
    lemma_star_from(topic, topic.len() as int);
}

proof fn lemma_star_from(t: Seq<u8>, i: int)
    requires
        0 <= i <= t.len(),
    ensures
        match_from(t, seq![WILDCARD_MANY], t.len() - i, 0),
    decreases i,
{
    let p = seq![WILDCARD_MANY];
    assert(p[0] == WILDCARD_MANY);
    if i == 0 {
        assert(match_from(t, p, t.len() as int, 1));
    } else {
        lemma_star_from(t, i - 1);
    }
}

} // verus!
