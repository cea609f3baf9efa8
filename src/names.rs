use vstd::prelude::*;
use vstd::string::StringExecFns;

verus! {

/// The words of `words` at positions `lo..hi` that exist, in order.
pub open spec fn selected_words(words: Seq<String>, lo: int, hi: int) -> Seq<Seq<char>>
    decreases hi - lo,
{
    if hi <= lo || lo >= words.len() {
        Seq::empty()
    } else {
        seq![words[lo]@] + selected_words(words, lo + 1, hi)
    }
}

/// `parts` joined with `sep` between each two.
pub open spec fn join_spec(parts: Seq<Seq<char>>, sep: Seq<char>) -> Seq<char>
    decreases parts.len(),
{
    if parts.len() == 0 {
        Seq::empty()
    } else if parts.len() == 1 {
        parts[0]
    } else {
        join_spec(parts.drop_last(), sep) + sep + parts.last()
    }
}

/// The words of `words` at positions `lo..hi`, skipping positions past the
/// last word, joined with `sep`.
pub open spec fn compose_spec(words: Seq<String>, lo: int, hi: int, sep: Seq<char>) -> Seq<char> {
    join_spec(selected_words(words, lo, hi), sep)
}

proof fn lemma_selected_push(words: Seq<String>, lo: int, i: int)
    requires
        0 <= lo <= i < words.len(),
    ensures
        selected_words(words, lo, i + 1) == selected_words(words, lo, i).push(words[i]@),
    decreases i - lo,
{
    if lo < i {
        lemma_selected_push(words, lo + 1, i);
        assert(selected_words(words, lo, i + 1) =~= selected_words(words, lo, i).push(words[i]@));
    } else {
        assert(selected_words(words, lo + 1, i + 1) =~= Seq::<Seq<char>>::empty());
        assert(selected_words(words, lo, i) =~= Seq::<Seq<char>>::empty());
        assert(selected_words(words, lo, i + 1) =~= selected_words(words, lo, i).push(words[i]@));
    }
}

proof fn lemma_selected_past_end(words: Seq<String>, lo: int, i: int, hi: int)
    requires
        0 <= lo,
        i == if hi < words.len() { hi } else { words.len() as int },
        lo <= i,
    ensures
        selected_words(words, lo, hi) == selected_words(words, lo, i),
    decreases i - lo,
{
    if lo < i {
        lemma_selected_past_end(words, lo + 1, i, hi);
    }
}

/// One name made of the words at positions `lo..hi` of a line, joined with
/// `sep`; positions past the line's last word are skipped.
pub fn compose_name(words: &Vec<String>, lo: usize, hi: usize, sep: &str) -> (r: String)
    ensures
        r@ == compose_spec(words@, lo as int, hi as int, sep@),
{
    let end = if hi < words.len() { hi } else { words.len() };
    let mut r = String::new();
    if lo >= end {
        assert(selected_words(words@, lo as int, hi as int) =~= Seq::<Seq<char>>::empty());
        return r;
    }
    let mut i: usize = lo;
    while i < end
        invariant
            lo <= i <= end,
            end <= words@.len(),
            lo < end,
            r@ == join_spec(selected_words(words@, lo as int, i as int), sep@),
        decreases end - i,
    {
        proof {
            lemma_selected_push(words@, lo as int, i as int);
        }
        let ghost before = selected_words(words@, lo as int, i as int);
        if i > lo {
            assert(before.len() > 0) by {
                assert(selected_words(words@, lo as int, i as int).len() > 0);
            }
            r.append(sep);
        }
        r.append(words[i].as_str());
        proof {
            let after = before.push(words@[i as int]@);
            assert(after.drop_last() =~= before);
            if i == lo {
                assert(before =~= Seq::<Seq<char>>::empty());
            }
        }
        i = i + 1;
    }
    proof {
        lemma_selected_past_end(words@, lo as int, end as int, hi as int);
    }
    r
}

/// One name per line, each composed by `compose_name`.
pub fn compose_names(lines: &Vec<Vec<String>>, lo: usize, hi: usize, sep: &str) -> (r: Vec<String>)
    ensures
        r@.len() == lines@.len(),
        forall|i: int| 0 <= i < r@.len() ==> (#[trigger] r@[i])@ == compose_spec(lines@[i]@, lo as int, hi as int, sep@),
{
    let mut r: Vec<String> = Vec::new();
    let mut i: usize = 0;
    while i < lines.len()
        invariant
            i <= lines@.len(),
            r@.len() == i,
            forall|j: int| 0 <= j < i ==> (#[trigger] r@[j])@ == compose_spec(lines@[j]@, lo as int, hi as int, sep@),
        decreases lines@.len() - i,
    {
        r.push(compose_name(&lines[i], lo, hi, sep));
        i = i + 1;
    }
    r
}

} // verus!
