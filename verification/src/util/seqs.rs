use vstd::prelude::*;
use crate::util::text::text_eq;
use crate::util::views::lemma_deep_view_index;

verus! {

/// The items of `s` in the order in which each occurs first.
pub open spec fn distinct<T>(s: Seq<T>) -> Seq<T>
    decreases s.len(),
{
    if s.len() == 0 {
        s
    } else {
        let before = distinct(s.drop_last());
        if before.contains(s.last()) {
            before
        } else {
            before.push(s.last())
        }
    }
}

/// `distinct(s)` holds what `s` holds, and nothing twice.
pub proof fn lemma_distinct<T>(s: Seq<T>)
    ensures
        distinct(s).no_duplicates(),
        distinct(s).len() <= s.len(),
        forall|x: T| distinct(s).contains(x) <==> s.contains(x),
    decreases s.len(),
{
    if s.len() > 0 {
        let front = s.drop_last();
        let before = distinct(front);
        lemma_distinct(front);
        assert forall|x: T| distinct(s).contains(x) <==> s.contains(x) by {
            if s.contains(x) {
                let i = choose|i: int| 0 <= i < s.len() && s[i] == x;
                if i < s.len() - 1 {
                    assert(front[i] == x);
                    assert(front.contains(x));
                    assert(before.contains(x));
                    let j = choose|j: int| 0 <= j < before.len() && before[j] == x;
                    assert(distinct(s)[j] == x);
                } else if !before.contains(s.last()) {
                    assert(distinct(s)[before.len() as int] == x);
                }
            }
            if distinct(s).contains(x) {
                let j = choose|j: int| 0 <= j < distinct(s).len() && distinct(s)[j] == x;
                if j < before.len() {
                    assert(before[j] == x);
                    assert(front.contains(x));
                    let i = choose|i: int| 0 <= i < front.len() && front[i] == x;
                    assert(s[i] == x);
                } else {
                    assert(s[s.len() - 1] == x);
                }
            }
        }
    }
}

/// What `distinct` makes of a sequence with one more item.
pub proof fn lemma_distinct_push<T>(s: Seq<T>, x: T)
    ensures
        distinct(s.push(x)) == if distinct(s).contains(x) {
            distinct(s)
        } else {
            distinct(s).push(x)
        },
{
    assert(s.push(x).drop_last() =~= s);
}

/// Whether `texts` holds `text`.
pub fn contains_text(texts: &Vec<String>, text: &str) -> (r: bool)
    ensures
        r == texts.deep_view().contains(text@),
{
    let mut i: usize = 0;
    proof {
        lemma_deep_view_index(*texts);
    }
    while i < texts.len()
        invariant
            i <= texts.len(),
            texts.deep_view().len() == texts.len(),
            forall|k: int| 0 <= k < texts.len() ==> texts.deep_view()[k] == texts[k]@,
            forall|k: int| 0 <= k < i ==> texts.deep_view()[k] != text@,
        decreases texts.len() - i,
    {
        if text_eq(texts[i].as_str(), text) {
            assert(texts.deep_view()[i as int] == text@);
            return true;
        }
        i += 1;
    }
    false
}

} // verus!
