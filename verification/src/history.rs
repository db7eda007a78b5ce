//! An in-memory command history: an append-only list of non-empty lines,
//! addressable from the front (`get`) and from the back (`rget`).
//!
//! Persistence is the embedding program's business: it reads the history
//! file into lines for `from_lines` and appends each pushed command to the
//! file itself.

use vstd::prelude::*;

verus! {

/// What `str::trim` returns for the characters of `s`: `s` without its
/// leading and trailing whitespace.
pub uninterp spec fn trimmed_of(s: Seq<char>) -> Seq<char>;

/// Relies on str::trim: removes leading and trailing whitespace; the result
/// depends on the characters alone.
#[verifier::external_body]
fn trim_str<'a>(s: &'a str) -> (r: &'a str)
    ensures
        r@ == trimmed_of(s@),
{
    s.trim()
}

/// Keeping only non-empty lines.
pub open spec fn non_empty() -> spec_fn(Seq<char>) -> bool {
    |l: Seq<char>| l.len() != 0
}

/// The command history, oldest first.
pub struct History {
    lines: Vec<String>,
}

impl View for History {
    type V = Seq<Seq<char>>;

    closed spec fn view(&self) -> Seq<Seq<char>> {
        self.lines.deep_view()
    }
}

impl History {
    /// An empty history.
    pub fn new() -> (h: History)
        ensures
            h@ == Seq::<Seq<char>>::empty(),
    {
        let h = History { lines: Vec::new() };
        proof {
            assert(h@ =~= Seq::<Seq<char>>::empty());
        }
        h
    }

    /// A history loaded from previously saved lines, keeping only the
    /// non-empty ones, in order.
    pub fn from_lines(lines: Vec<String>) -> (h: History)
        ensures
            h@ == lines.deep_view().filter(non_empty()),
    {
        let ghost all = lines.deep_view();
        let mut kept: Vec<String> = Vec::new();
        let n = lines.len();
        let mut i: usize = 0;
        proof {
            reveal(Seq::filter);
            assert(all.take(0) =~= Seq::<Seq<char>>::empty());
            assert(kept.deep_view() =~~= all.take(0).filter(non_empty()));
        }
        while i < n
            invariant
                0 <= i <= n,
                n == lines@.len(),
                all == lines.deep_view(),
                kept.deep_view() == all.take(i as int).filter(non_empty()),
            decreases n - i,
        {
            let ghost kept_before = kept.deep_view();
            proof {
                reveal(Seq::filter);
                assert(all.take(i + 1 as int).drop_last() =~= all.take(i as int));
                assert(all.take(i + 1 as int).last() == all[i as int]);
            }
            let line = &lines[i];
            if !line.as_str().is_empty() {
                let copy = line.clone();
                kept.push(copy);
                proof {
                    assert(kept.deep_view() =~~= kept_before.push(all[i as int]));
                }
            }
            i = i + 1;
        }
        proof {
            assert(all.take(n as int) =~= all);
        }
        History { lines: kept }
    }

    /// Appends `command`, trimmed of surrounding whitespace.
    pub fn push(&mut self, command: &String)
        ensures
            final(self)@ == old(self)@.push(trimmed_of(command@)),
    {
        let trimmed = trim_str(command.as_str()).to_owned();
        let ghost before = self.lines.deep_view();
        self.lines.push(trimmed);
        proof {
            assert(self.lines.deep_view() =~~= before.push(trimmed_of(command@)));
        }
    }

    /// How many commands are recorded.
    pub fn size(&self) -> (n: usize)
        ensures
            n == self@.len(),
    {
        self.lines.len()
    }

    /// The most recent command, if any.
    pub fn last(&self) -> (r: Option<&String>)
        ensures
            self@.len() > 0 ==> (r matches Some(s) && s@ == self@[self@.len() - 1]),
            self@.len() == 0 ==> r is None,
    {
        self.rget(0)
    }

    /// The `num`-th command counting from one at the front: `get(1)` is the
    /// oldest. Out-of-range numbers (including zero) yield nothing.
    pub fn get(&self, num: usize) -> (r: Option<&String>)
        ensures
            1 <= num <= self@.len() ==> (r matches Some(s) && s@ == self@[num - 1]),
            !(1 <= num <= self@.len()) ==> r is None,
    {
        if num > 0 && num - 1 < self.lines.len() {
            Some(&self.lines[num - 1])
        } else {
            None
        }
    }

    /// The `num`-th command counting from zero at the back: `rget(0)` is the
    /// most recent. Out-of-range numbers yield nothing.
    pub fn rget(&self, num: usize) -> (r: Option<&String>)
        ensures
            num < self@.len() ==> (r matches Some(s) && s@ == self@[self@.len() - 1 - num]),
            num >= self@.len() ==> r is None,
    {
        if num < self.lines.len() {
            let idx = self.lines.len() - 1 - num;
            Some(&self.lines[idx])
        } else {
            None
        }
    }
}

} // verus!
