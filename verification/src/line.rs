//! Command lines.

use vstd::prelude::*;
use vstd::string::*;

verus! {

/// The arguments of a command, put together word by word.
pub struct Line {
    pub words: Vec<String>,
}

impl View for Line {
    type V = Seq<Seq<char>>;

    open spec fn view(&self) -> Seq<Seq<char>> {
        self.words.deep_view()
    }
}

/// A command line without words.
pub open spec fn blank() -> Seq<Seq<char>> {
    Seq::empty()
}

/// Starts a command line.
pub fn start() -> (r: Line)
    ensures
        r@ == blank(),
{
    let words: Vec<String> = Vec::new();
    assert(words.deep_view() =~= blank());
    Line { words }
}

impl Line {
    /// Adds a word.
    pub fn w(self, word: &str) -> (r: Line)
        ensures
            r@ == self@.push(word@),
    {
        let mut words = self.words;
        words.push(word.to_owned());
        assert(words.deep_view() =~= self@.push(word@));
        Line { words }
    }

    /// Adds the words of another line.
    pub fn and(self, more: &Vec<String>) -> (r: Line)
        ensures
            r@ == self@ + more.deep_view(),
    {
        let mut r: Line = self;
        let ghost start = r@;
        let mut i: usize = 0;
        assert(start + more.deep_view().take(0) =~= start);
        while i < more.len()
            invariant
                i <= more.len(),
                r@ == start + more.deep_view().take(i as int),
            decreases more.len() - i,
        {
            r = r.w(more[i].as_str());
            assert(r@ =~= start + more.deep_view().take(i + 1));
            i += 1;
        }
        assert(more.deep_view().take(more.len() as int) =~= more.deep_view());
        r
    }
}

/// Copies a list of strings.
pub fn copy_all(list: &Vec<String>) -> (r: Vec<String>)
    ensures
        r.deep_view() == list.deep_view(),
{
    let r = start().and(list).words;
    assert(r.deep_view() =~= list.deep_view());
    r
}

/// Two lists, one behind the other.
pub fn join_all(a: &Vec<String>, b: &Vec<String>) -> (r: Vec<String>)
    ensures
        r.deep_view() == a.deep_view() + b.deep_view(),
{
    let l = start().and(a);
    assert(l@ =~= a.deep_view());
    l.and(b).words
}

} // verus!
