//! A tiny line editor for the rename field, with a cursor and readline-style
//! (Emacs) editing operations. Stored as chars so the cursor is codepoint-safe.

use vstd::prelude::*;
use crate::text::{is_alphanumeric, char_is_alphanumeric, chars_of, string_of};

verus! {

/// From position `i`, move left over characters whose alphanumeric-ness is
/// `alnum`, and stop at the first that differs (or at the start).
pub open spec fn skip_left(buf: Seq<char>, i: int, alnum: bool) -> int
    decreases i,
{
    if 0 < i <= buf.len() && is_alphanumeric(buf[i - 1]) == alnum {
        skip_left(buf, i - 1, alnum)
    } else {
        i
    }
}

/// From position `i`, move right over characters whose alphanumeric-ness is
/// `alnum`, and stop at the first that differs (or at the end).
pub open spec fn skip_right(buf: Seq<char>, i: int, alnum: bool) -> int
    decreases buf.len() - i,
{
    if 0 <= i < buf.len() && is_alphanumeric(buf[i]) == alnum {
        skip_right(buf, i + 1, alnum)
    } else {
        i
    }
}

/// The word boundary to the left of `c`: skip separators, then the word.
pub open spec fn prev_word_of(buf: Seq<char>, c: int) -> int {
    skip_left(buf, skip_left(buf, c, false), true)
}

/// The word boundary to the right of `c`: skip separators, then the word.
pub open spec fn next_word_of(buf: Seq<char>, c: int) -> int {
    skip_right(buf, skip_right(buf, c, false), true)
}

proof fn lemma_skip_left_bounds(buf: Seq<char>, i: int, alnum: bool)
    requires
        0 <= i <= buf.len(),
    ensures
        0 <= skip_left(buf, i, alnum) <= i,
        forall|k: int| skip_left(buf, i, alnum) <= k < i ==> is_alphanumeric(#[trigger] buf[k]) == alnum,
    decreases i,
{
    if 0 < i && is_alphanumeric(buf[i - 1]) == alnum {
        lemma_skip_left_bounds(buf, i - 1, alnum);
    }
}

proof fn lemma_skip_right_bounds(buf: Seq<char>, i: int, alnum: bool)
    requires
        0 <= i <= buf.len(),
    ensures
        i <= skip_right(buf, i, alnum) <= buf.len(),
        forall|k: int| i <= k < skip_right(buf, i, alnum) ==> is_alphanumeric(#[trigger] buf[k]) == alnum,
    decreases buf.len() - i,
{
    if i < buf.len() && is_alphanumeric(buf[i]) == alnum {
        lemma_skip_right_bounds(buf, i + 1, alnum);
    }
}

pub struct Edit {
    pub buf: Vec<char>,
    pub cursor: usize,
}

impl Edit {
    /// The cursor stands within the line (at most just past its end).
    pub open spec fn wf(&self) -> bool {
        self.cursor <= self.buf@.len()
    }

    /// Open the editor on `s`, with the cursor after its last character.
    pub fn new(s: &str) -> (e: Self)
        ensures
            e.buf@ == s@,
            e.cursor == s@.len(),
            e.wf(),
    {
        let buf = chars_of(s);
        let cursor = buf.len();
        Edit { buf, cursor }
    }

    /// The line as a string.
    pub fn text(&self) -> (s: String)
        ensures
            s@ == self.buf@,
    {
        string_of(self.buf.as_slice())
    }

    /// Type `c` at the cursor.
    pub fn insert(&mut self, c: char)
        requires
            old(self).wf(),
            old(self).buf@.len() < usize::MAX,
        ensures
            final(self).buf@ == old(self).buf@.insert(old(self).cursor as int, c),
            final(self).cursor == old(self).cursor + 1,
            final(self).wf(),
    {
        self.buf.insert(self.cursor, c);
        self.cursor += 1;
    }

    /// Delete the char before the cursor (Backspace / C-h).
    pub fn backspace(&mut self)
        requires
            old(self).wf(),
        ensures
            old(self).cursor > 0 ==> {
                &&& final(self).buf@ == old(self).buf@.remove(old(self).cursor - 1)
                &&& final(self).cursor == old(self).cursor - 1
            },
            old(self).cursor == 0 ==> *final(self) == *old(self),
            final(self).wf(),
    {
        if self.cursor > 0 {
            self.cursor -= 1;
            self.buf.remove(self.cursor);
        }
    }

    /// Delete the char at the cursor (Delete / C-d).
    pub fn delete(&mut self)
        ensures
            old(self).cursor < old(self).buf@.len() ==> final(self).buf@ == old(self).buf@.remove(old(self).cursor as int),
            old(self).cursor >= old(self).buf@.len() ==> final(self).buf@ == old(self).buf@,
            final(self).cursor == old(self).cursor,
            old(self).wf() ==> final(self).wf(),
    {
        if self.cursor < self.buf.len() {
            self.buf.remove(self.cursor);
        }
    }

    pub fn left(&mut self)
        ensures
            final(self).cursor == (if old(self).cursor > 0 { old(self).cursor - 1 } else { 0 }),
            final(self).buf@ == old(self).buf@,
            old(self).wf() ==> final(self).wf(),
    {
        self.cursor = self.cursor.saturating_sub(1);
    }

    pub fn right(&mut self)
        ensures
            final(self).cursor == (if old(self).cursor < old(self).buf@.len() { old(self).cursor + 1 } else { old(self).cursor as int }),
            final(self).buf@ == old(self).buf@,
            old(self).wf() ==> final(self).wf(),
    {
        if self.cursor < self.buf.len() {
            self.cursor += 1;
        }
    }

    pub fn home(&mut self)
        ensures
            final(self).cursor == 0,
            final(self).buf@ == old(self).buf@,
            final(self).wf(),
    {
        self.cursor = 0;
    }

    pub fn end(&mut self)
        ensures
            final(self).cursor == old(self).buf@.len(),
            final(self).buf@ == old(self).buf@,
            final(self).wf(),
    {
        self.cursor = self.buf.len();
    }

    /// Kill from the cursor to the end of the line (C-k).
    pub fn kill_to_end(&mut self)
        ensures
            final(self).buf@ == (if old(self).cursor <= old(self).buf@.len() {
                old(self).buf@.take(old(self).cursor as int)
            } else {
                old(self).buf@
            }),
            final(self).cursor == old(self).cursor,
            old(self).wf() ==> final(self).wf(),
    {
        self.buf.truncate(self.cursor);
    }

    /// Kill from the start of the line to the cursor (C-u).
    pub fn kill_to_start(&mut self)
        requires
            old(self).wf(),
        ensures
            final(self).buf@ == old(self).buf@.skip(old(self).cursor as int),
            final(self).cursor == 0,
            final(self).wf(),
    {
        let rest = splice(&self.buf, 0, self.cursor);
        self.buf = rest;
        self.cursor = 0;
    }

    /// Word boundary to the left of the cursor (skip separators, then word).
    fn prev_word(&self) -> (i: usize)
        requires
            self.wf(),
        ensures
            i == prev_word_of(self.buf@, self.cursor as int),
            i <= self.cursor,
    {
        let mut i = self.cursor;
        while i > 0 && !char_is_alphanumeric(self.buf[i - 1])
            invariant
                i <= self.buf@.len(),
                skip_left(self.buf@, i as int, false) == skip_left(self.buf@, self.cursor as int, false),
                i <= self.cursor,
            decreases i,
        {
            i -= 1;
        }
        let ghost mid = i;
        while i > 0 && char_is_alphanumeric(self.buf[i - 1])
            invariant
                i <= mid,
                mid <= self.buf@.len(),
                skip_left(self.buf@, i as int, true) == skip_left(self.buf@, mid as int, true),
                mid == skip_left(self.buf@, self.cursor as int, false),
                mid <= self.cursor,
            decreases i,
        {
            i -= 1;
        }
        i
    }

    /// Word boundary to the right of the cursor.
    fn next_word(&self) -> (i: usize)
        ensures
            i == next_word_of(self.buf@, self.cursor as int),
            i >= self.cursor,
            self.wf() ==> i <= self.buf@.len(),
    {
        let n = self.buf.len();
        let mut i = self.cursor;
        while i < n && !char_is_alphanumeric(self.buf[i])
            invariant
                n == self.buf@.len(),
                i >= self.cursor,
                self.wf() ==> i <= n,
                skip_right(self.buf@, i as int, false) == skip_right(self.buf@, self.cursor as int, false),
            decreases n - i,
        {
            i += 1;
        }
        let ghost mid = i;
        while i < n && char_is_alphanumeric(self.buf[i])
            invariant
                n == self.buf@.len(),
                i >= mid,
                mid >= self.cursor,
                self.wf() ==> i <= n,
                skip_right(self.buf@, i as int, true) == skip_right(self.buf@, mid as int, true),
                mid == skip_right(self.buf@, self.cursor as int, false),
            decreases n - i,
        {
            i += 1;
        }
        i
    }

    pub fn word_left(&mut self)
        requires
            old(self).wf(),
        ensures
            final(self).cursor == prev_word_of(old(self).buf@, old(self).cursor as int),
            final(self).buf@ == old(self).buf@,
            final(self).wf(),
    {
        self.cursor = self.prev_word();
    }

    pub fn word_right(&mut self)
        ensures
            final(self).cursor == next_word_of(old(self).buf@, old(self).cursor as int),
            final(self).buf@ == old(self).buf@,
            old(self).wf() ==> final(self).wf(),
    {
        self.cursor = self.next_word();
    }

    /// Kill the word before the cursor (C-w / M-Backspace).
    pub fn kill_word_left(&mut self)
        requires
            old(self).wf(),
        ensures
            ({
                let start = prev_word_of(old(self).buf@, old(self).cursor as int);
                &&& final(self).buf@ == old(self).buf@.take(start) + old(self).buf@.skip(old(self).cursor as int)
                &&& final(self).cursor == start
            }),
            final(self).wf(),
    {
        let start = self.prev_word();
        let rest = splice(&self.buf, start, self.cursor);
        self.buf = rest;
        self.cursor = start;
    }

    /// Kill the word after the cursor (M-d).
    pub fn kill_word_right(&mut self)
        requires
            old(self).wf(),
        ensures
            ({
                let end = next_word_of(old(self).buf@, old(self).cursor as int);
                final(self).buf@ == old(self).buf@.take(old(self).cursor as int) + old(self).buf@.skip(end)
            }),
            final(self).cursor == old(self).cursor,
            final(self).wf(),
    {
        let end = self.next_word();
        let rest = splice(&self.buf, self.cursor, end);
        self.buf = rest;
    }
}

/// The characters of `v` outside `[from, to)`.
fn splice(v: &Vec<char>, from: usize, to: usize) -> (r: Vec<char>)
    requires
        from <= to <= v@.len(),
    ensures
        r@ == v@.take(from as int) + v@.skip(to as int),
{
    let mut r: Vec<char> = Vec::new();
    let mut i: usize = 0;
    while i < from
        invariant
            i <= from <= to <= v@.len(),
            r@ == v@.take(i as int),
        decreases from - i,
    {
        r.push(v[i]);
        assert(v@.take(i as int).push(v@[i as int]) =~= v@.take(i + 1));
        i += 1;
    }
    let mut j: usize = to;
    while j < v.len()
        invariant
            from <= to <= j <= v@.len(),
            r@ == v@.take(from as int) + v@.subrange(to as int, j as int),
        decreases v.len() - j,
    {
        r.push(v[j]);
        assert(v@.subrange(to as int, j as int).push(v@[j as int]) =~= v@.subrange(to as int, j + 1));
        assert((v@.take(from as int) + v@.subrange(to as int, j as int)).push(v@[j as int])
            =~= v@.take(from as int) + v@.subrange(to as int, j + 1));
        j += 1;
    }
    assert(v@.subrange(to as int, v@.len() as int) =~= v@.skip(to as int));
    r
}

/// The cursor never leaves the line: every operation, started on a line whose
/// cursor is within it, leaves the cursor within the line. (Each operation's
/// own contract carries `wf` through; this states the word boundaries' part.)
pub proof fn lemma_word_boundaries_stay_in_line(buf: Seq<char>, c: int)
    requires
        0 <= c <= buf.len(),
    ensures
        0 <= prev_word_of(buf, c) <= c,
        c <= next_word_of(buf, c) <= buf.len(),
{
    lemma_skip_left_bounds(buf, c, false);
    lemma_skip_left_bounds(buf, skip_left(buf, c, false), true);
    lemma_skip_right_bounds(buf, c, false);
    lemma_skip_right_bounds(buf, skip_right(buf, c, false), true);
}

proof fn lemma_skip_left_stops(buf: Seq<char>, i: int, alnum: bool)
    requires
        0 <= i <= buf.len(),
    ensures
        skip_left(buf, i, alnum) == 0 || is_alphanumeric(buf[skip_left(buf, i, alnum) - 1]) != alnum,
    decreases i,
{
    if 0 < i && is_alphanumeric(buf[i - 1]) == alnum {
        lemma_skip_left_stops(buf, i - 1, alnum);
    }
}

proof fn lemma_skip_right_stops(buf: Seq<char>, i: int, alnum: bool)
    requires
        0 <= i <= buf.len(),
    ensures
        skip_right(buf, i, alnum) == buf.len() || is_alphanumeric(buf[skip_right(buf, i, alnum)]) != alnum,
    decreases buf.len() - i,
{
    if i < buf.len() && is_alphanumeric(buf[i]) == alnum {
        lemma_skip_right_stops(buf, i + 1, alnum);
    }
}

/// The word motions land on word boundaries: going back from `c` passes over
/// separators and then one word, and stops at that word's start (the start
/// of the line, or just after a separator); going forward passes over
/// separators and then one word, and stops at that word's end (the end of the
/// line, or on a separator).
pub proof fn lemma_word_motions_land_on_word_ends(buf: Seq<char>, c: int)
    requires
        0 <= c <= buf.len(),
    ensures
        ({
            let p = prev_word_of(buf, c);
            &&& p == 0 || !is_alphanumeric(buf[p - 1])
            &&& 0 <= p <= c
            &&& forall|i: int, j: int| p <= i <= j < c && !is_alphanumeric(#[trigger] buf[i])
                ==> !is_alphanumeric(#[trigger] buf[j])
        }),
        ({
            let n = next_word_of(buf, c);
            &&& n == buf.len() || !is_alphanumeric(buf[n])
            &&& c <= n <= buf.len()
            &&& forall|i: int, j: int| c <= i <= j < n && is_alphanumeric(#[trigger] buf[i])
                ==> is_alphanumeric(#[trigger] buf[j])
        }),
{
    let q = skip_left(buf, c, false);
    lemma_skip_left_bounds(buf, c, false);
    lemma_skip_left_bounds(buf, q, true);
    lemma_skip_left_stops(buf, q, true);
    let r = skip_right(buf, c, false);
    lemma_skip_right_bounds(buf, c, false);
    lemma_skip_right_bounds(buf, r, true);
    lemma_skip_right_stops(buf, r, true);
    let p = prev_word_of(buf, c);
    assert forall|i: int, j: int| p <= i <= j < c && !is_alphanumeric(#[trigger] buf[i])
        implies !is_alphanumeric(#[trigger] buf[j]) by {
        if i < q {
            assert(is_alphanumeric(buf[i]));
        }
    }
    let n = next_word_of(buf, c);
    assert forall|i: int, j: int| c <= i <= j < n && is_alphanumeric(#[trigger] buf[i])
        implies is_alphanumeric(#[trigger] buf[j]) by {
        if i < r {
            assert(!is_alphanumeric(buf[i]));
        }
    }
}

/// Typing a character and then deleting backwards restores the line and the
/// cursor.
pub proof fn lemma_backspace_undoes_insert(buf: Seq<char>, cursor: int, c: char)
    requires
        0 <= cursor <= buf.len(),
    ensures
        buf.insert(cursor, c).remove(cursor) == buf,
{
    assert(buf.insert(cursor, c).remove(cursor) =~= buf);
}

/// Killing to the end and killing to the start together take exactly the
/// line: the two pieces put back together are the whole line.
pub proof fn lemma_kills_split_the_line(buf: Seq<char>, cursor: int)
    requires
        0 <= cursor <= buf.len(),
    ensures
        buf.take(cursor) + buf.skip(cursor) == buf,
{
    assert(buf.take(cursor) + buf.skip(cursor) =~= buf);
}

/// A word kill removes only what the word motion passes over: the text left
/// of the motion's landing point and right of the cursor is kept.
pub proof fn lemma_word_kill_keeps_the_rest(buf: Seq<char>, cursor: int)
    requires
        0 <= cursor <= buf.len(),
    ensures
        ({
            let start = prev_word_of(buf, cursor);
            let end = next_word_of(buf, cursor);
            &&& (buf.take(start) + buf.skip(cursor)).len() == buf.len() - (cursor - start)
            &&& (buf.take(cursor) + buf.skip(end)).len() == buf.len() - (end - cursor)
        }),
{
    lemma_word_boundaries_stay_in_line(buf, cursor);
}

} // verus!
