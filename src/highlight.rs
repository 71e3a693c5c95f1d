//! Styling a cell's text from the positions the matcher reports.
//!
//! The matcher reports positions over the first character of each grapheme,
//! so they are taken as grapheme positions.
use vstd::prelude::*;

verus! {

/// One grapheme of a cell and the style of the span it belongs to, as an id:
/// equal styles have equal ids.
pub struct Grapheme {
    pub text: String,
    pub style: u64,
}

/// A run of text drawn in one style: style `style`, with the match highlight
/// laid over it where `highlighted`.
pub struct StyledRun {
    pub text: String,
    pub style: u64,
    pub highlighted: bool,
}

/// A grapheme's style: its span's style, and whether its position was matched.
pub open spec fn style_of(g: Seq<Grapheme>, positions: Seq<u32>, k: int) -> (u64, bool) {
    (g[k].style, positions.contains(k as u32))
}

pub open spec fn run_view(r: StyledRun) -> (Seq<char>, u64, bool) {
    (r.text@, r.style, r.highlighted)
}

/// The maximal runs of equally styled graphemes among the first `n`, in order.
pub open spec fn runs_upto(g: Seq<Grapheme>, positions: Seq<u32>, n: int) -> Seq<(Seq<char>, u64, bool)>
    decreases n,
{
    if n <= 0 {
        Seq::empty()
    } else {
        let before = runs_upto(g, positions, n - 1);
        let (style, hl) = style_of(g, positions, n - 1);
        if before.len() > 0 && before.last().1 == style && before.last().2 == hl {
            before.update(before.len() - 1, (before.last().0 + g[n - 1].text@, style, hl))
        } else {
            before.push((g[n - 1].text@, style, hl))
        }
    }
}

/// Whether `k` is among `positions`.
fn is_matched(positions: &Vec<u32>, k: u32) -> (r: bool)
    ensures
        r == positions@.contains(k),
{
    let mut i: usize = 0;
    while i < positions.len()
        invariant
            i <= positions.len(),
            forall|j: int| 0 <= j < i ==> positions@[j] != k,
        decreases positions.len() - i,
    {
        if positions[i] == k {
            return true;
        }
        i = i + 1;
    }
    false
}

/// Groups the graphemes of a cell into runs of one style, highlighting those
/// whose position is among `positions`, in any order and with repeats.
pub fn highlight_runs(graphemes: &Vec<Grapheme>, positions: &Vec<u32>) -> (r: Vec<StyledRun>)
    requires
        graphemes.len() <= u32::MAX,
    ensures
        r@.map_values(|x: StyledRun| run_view(x)) == runs_upto(graphemes@, positions@, graphemes.len() as int),
{
    let mut runs: Vec<StyledRun> = Vec::new();
    let mut k: usize = 0;
    while k < graphemes.len()
        invariant
            graphemes.len() <= u32::MAX,
            k <= graphemes.len(),
            runs@.map_values(|x: StyledRun| run_view(x)) == runs_upto(graphemes@, positions@, k as int),
        decreases graphemes.len() - k,
    {
        let ghost before = runs@.map_values(|x: StyledRun| run_view(x));
        let hl = is_matched(positions, k as u32);
        let g = &graphemes[k];
        let n = runs.len();
        if n > 0 && runs[n - 1].style == g.style && runs[n - 1].highlighted == hl {
            let mut last = runs.pop().unwrap();
            assert(run_view(last) == before[n - 1]);
            last.text.append(g.text.as_str());
            runs.push(last);
        } else {
            runs.push(StyledRun { text: g.text.clone(), style: g.style, highlighted: hl });
        }
        proof {
            assert(runs@.map_values(|x: StyledRun| run_view(x)) =~= runs_upto(graphemes@, positions@, k + 1));
        }
        k = k + 1;
    }
    runs
}

} // verus!
