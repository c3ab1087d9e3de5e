use vstd::prelude::*;
use crate::cursor::{skip_ws, lemma_skip_ws};
use crate::value_decoder::{all_json_ws, decoded_len};
use crate::walker::{Outcome, Phase, step};

verus! {

/// The outcomes of `k` successive calls of `next`, starting from phase `ph`
/// at read position `p`.
pub open spec fn run(s: Seq<u8>, ph: Phase, p: nat, k: nat) -> Seq<Outcome>
    decreases k,
{
    if k == 0 {
        Seq::empty()
    } else {
        let (o, ph2, p2) = step(s, ph, p);
        seq![o] + run(s, ph2, p2, (k - 1) as nat)
    }
}

/// `k` calls report `k` outcomes.
pub proof fn lemma_run_len(s: Seq<u8>, ph: Phase, p: nat, k: nat)
    ensures
        run(s, ph, p, k).len() == k,
    decreases k,
{
    if k > 0 {
        let (o, ph2, p2) = step(s, ph, p);
        lemma_run_len(s, ph2, p2, (k - 1) as nat);
    }
}

/// The decoder reads the bytes `a..b` of `s` as exactly one JSON value.
pub open spec fn value_spans(s: Seq<u8>, a: nat, b: nat) -> bool {
    let rest = s.subrange(a as int, s.len() as int);
    &&& a < b <= s.len()
    &&& !all_json_ws(rest)
    &&& decoded_len(rest) == Some((b - a) as nat)
}

/// `s` holds optional whitespace, `[`, the well-formed elements whose bytes
/// are `spans` in order, separated by commas, and `]`, with whitespace
/// allowed around each of them. Nothing after the `]` is read.
pub open spec fn well_formed_array(s: Seq<u8>, spans: Seq<(nat, nat)>) -> bool {
    let o = skip_ws(s, 0);
    let n = spans.len();
    &&& o < s.len()
    &&& s[o as int] == 0x5Bu8
    &&& if n == 0 {
        let c = skip_ws(s, o + 1);
        c < s.len() && s[c as int] == 0x5Du8
    } else {
        &&& spans[0].0 == skip_ws(s, o + 1)
        &&& s[spans[0].0 as int] != 0x5Du8
        &&& forall|i: int| 0 <= i < n ==> value_spans(s, #[trigger] spans[i].0, spans[i].1)
        &&& forall|i: int|
            0 <= i < n - 1 ==> {
                let c = skip_ws(s, #[trigger] spans[i].1);
                c < s.len() && s[c as int] == 0x2Cu8 && spans[i + 1 as int].0 == c + 1
            }
        &&& {
            let c = skip_ws(s, spans[n - 1].1);
            c < s.len() && s[c as int] == 0x5Du8
        }
    }
}

/// Once finished, every call reports the end of the sequence.
pub proof fn lemma_finished_run(s: Seq<u8>, p: nat, k: nat)
    ensures
        run(s, Phase::Finished, p, k).len() == k,
        forall|j: int| 0 <= j < k ==> #[trigger] run(s, Phase::Finished, p, k)[j] is End,
    decreases k,
{
    if k > 0 {
        lemma_finished_run(s, p, (k - 1) as nat);
        let tail = run(s, Phase::Finished, p, (k - 1) as nat);
        assert forall|j: int| 0 <= j < k implies #[trigger] run(s, Phase::Finished, p, k)[j] is End by {
            if j > 0 {
                assert(run(s, Phase::Finished, p, k)[j] == tail[j - 1]);
            }
        }
    }
}

/// Once a call reports the end of the sequence or an error, every later call
/// reports the end of the sequence: no element and no second error follow.
pub proof fn lemma_terminal_is_final(s: Seq<u8>, ph: Phase, p: nat, k: nat, i: nat)
    requires
        i < k,
        !(run(s, ph, p, k)[i as int] is Element),
    ensures
        forall|j: int| i < j < k ==> #[trigger] run(s, ph, p, k)[j] is End,
    decreases i,
{
    let (o, ph2, p2) = step(s, ph, p);
    let tail = run(s, ph2, p2, (k - 1) as nat);
    assert(run(s, ph, p, k) == seq![o] + tail);
    lemma_run_len(s, ph2, p2, (k - 1) as nat);
    if i == 0 {
        assert(ph2 == Phase::Finished);
        lemma_finished_run(s, p2, (k - 1) as nat);
        assert forall|j: int| i < j < k implies #[trigger] run(s, ph, p, k)[j] is End by {
            assert(run(s, ph, p, k)[j] == tail[j - 1]);
        }
    } else {
        assert(tail[i - 1] == run(s, ph, p, k)[i as int]);
        lemma_terminal_is_final(s, ph2, p2, (k - 1) as nat, (i - 1) as nat);
        assert forall|j: int| i < j < k implies #[trigger] run(s, ph, p, k)[j] is End by {
            assert(run(s, ph, p, k)[j] == tail[j - 1]);
        }
    }
}

/// From just past element `i` of a well-formed array, the calls yield the
/// remaining elements in order and then only the end of the sequence.
proof fn lemma_rest_of_array(s: Seq<u8>, spans: Seq<(nat, nat)>, i: nat, k: nat)
    requires
        well_formed_array(s, spans),
        i < spans.len(),
    ensures
        run(s, Phase::AwaitingElementOrEnd, spans[i as int].1, k).len() == k,
        forall|j: int|
            0 <= j < k ==> #[trigger] run(s, Phase::AwaitingElementOrEnd, spans[i as int].1, k)[j] == if i + 1 + j < spans.len() {
                Outcome::Element { start: spans[i + 1 + j].0, end: spans[i + 1 + j].1 }
            } else {
                Outcome::End
            },
    decreases spans.len() - i, k,
{
    let n = spans.len();
    let p = spans[i as int].1;
    assert(value_spans(s, spans[i as int].0, spans[i as int].1));
    lemma_skip_ws(s, p);
    if k > 0 {
        let (o, ph2, p2) = step(s, Phase::AwaitingElementOrEnd, p);
        let r = run(s, Phase::AwaitingElementOrEnd, p, k);
        let tail = run(s, ph2, p2, (k - 1) as nat);
        assert(r == seq![o] + tail);
        if i + 1 < n {
            let c = skip_ws(s, spans[i as int].1);
            assert(spans[i + 1 as int].0 == c + 1);
            assert(value_spans(s, spans[i + 1 as int].0, spans[i + 1 as int].1));
            assert(o == Outcome::Element { start: spans[i + 1 as int].0, end: spans[i + 1 as int].1 });
            lemma_rest_of_array(s, spans, i + 1, (k - 1) as nat);
            assert forall|j: int| 0 <= j < k implies #[trigger] r[j] == if i + 1 + j < spans.len() {
                Outcome::Element { start: spans[i + 1 + j].0, end: spans[i + 1 + j].1 }
            } else {
                Outcome::End
            } by {
                if j > 0 {
                    assert(r[j] == tail[j - 1]);
                }
            }
        } else {
            assert(o is End);
            lemma_finished_run(s, p2, (k - 1) as nat);
            assert forall|j: int| 0 <= j < k implies #[trigger] r[j] is End by {
                if j > 0 {
                    assert(r[j] == tail[j - 1]);
                }
            }
        }
    }
}

/// Walking a well-formed array of `n` elements, the first `n` calls yield
/// the elements in their order in the source, and every later call reports
/// the end of the sequence, never an error.
pub proof fn lemma_well_formed_array_yields_all(s: Seq<u8>, spans: Seq<(nat, nat)>, k: nat)
    requires
        well_formed_array(s, spans),
    ensures
        run(s, Phase::NotStarted, 0, k).len() == k,
        forall|j: int|
            0 <= j < k ==> #[trigger] run(s, Phase::NotStarted, 0, k)[j] == if j < spans.len() {
                Outcome::Element { start: spans[j].0, end: spans[j].1 }
            } else {
                Outcome::End
            },
{
    let o = skip_ws(s, 0);
    lemma_skip_ws(s, 0);
    lemma_skip_ws(s, o + 1);
    if k > 0 {
        let (first, ph2, p2) = step(s, Phase::NotStarted, 0);
        let r = run(s, Phase::NotStarted, 0, k);
        let tail = run(s, ph2, p2, (k - 1) as nat);
        assert(r == seq![first] + tail);
        if spans.len() == 0 {
            assert(first is End && ph2 == Phase::Finished);
            lemma_finished_run(s, p2, (k - 1) as nat);
            assert forall|j: int| 0 <= j < k implies #[trigger] r[j] is End by {
                if j > 0 {
                    assert(r[j] == tail[j - 1]);
                }
            }
        } else {
            assert(value_spans(s, spans[0].0, spans[0].1));
            assert(first == Outcome::Element { start: spans[0].0, end: spans[0].1 });
            lemma_rest_of_array(s, spans, 0, (k - 1) as nat);
            assert forall|j: int| 0 <= j < k implies #[trigger] r[j] == if j < spans.len() {
                Outcome::Element { start: spans[j].0, end: spans[j].1 }
            } else {
                Outcome::End
            } by {
                if j > 0 {
                    assert(r[j] == tail[j - 1]);
                }
            }
        }
    }
}

} // verus!
