//! Indentation tracking and the append-only output buffer shared by the
//! query-document and schema-document formatters.

use vstd::prelude::*;
use vstd::string::StringExecFns;

pub mod query;
pub mod schema;

verus! {

/// Number of spaces per indentation level used by [`query::format`] and
/// [`schema::format`].
pub const INDENT_SIZE: usize = 2;

/// Column limit beyond which an argument list is wrapped onto one line per
/// argument.
pub const MAX_LINE_LENGTH: usize = 80;

/// A sequence of `n` space characters.
pub open spec fn space_seq(n: nat) -> Seq<char> {
    Seq::new(n, |i: int| ' ')
}

/// Nesting-depth counter and whitespace generator.
///
/// `count` is the current depth; `size` is the number of spaces emitted per
/// level.  Every `increment` issued while walking a subtree must be matched
/// by exactly one `decrement` before control returns to the caller.
pub struct Indentation {
    pub size: usize,
    pub count: usize,
}

impl Indentation {
    /// The whitespace prefix for the current depth: `count * size` spaces.
    pub open spec fn spaces_spec(&self) -> Seq<char> {
        space_seq((self.count * self.size) as nat)
    }

    pub fn new(size: usize) -> (r: Indentation)
        ensures
            r.size == size,
            r.count == 0,
    {
        Indentation { size, count: 0 }
    }

    pub fn increment(&mut self)
        requires
            old(self).count < usize::MAX,
        ensures
            final(self).count == old(self).count + 1,
            final(self).size == old(self).size,
    {
        self.count = self.count + 1;
    }

    pub fn decrement(&mut self)
        requires
            old(self).count > 0,
        ensures
            final(self).count == old(self).count - 1,
            final(self).size == old(self).size,
    {
        self.count = self.count - 1;
    }

    pub fn spaces(&self) -> (r: String)
        ensures
            r@ == self.spaces_spec(),
    {
        let mut indent = String::new();
        let mut level: usize = 0;
        while level < self.count
            invariant
                level <= self.count,
                indent@ == space_seq((level * self.size) as nat),
            decreases self.count - level,
        {
            let mut k: usize = 0;
            while k < self.size
                invariant
                    k <= self.size,
                    indent@ == space_seq((level * self.size + k) as nat),
            decreases self.size - k,
            {
                proof {
                    reveal_strlit(" ");
                    assert(space_seq((level * self.size + k + 1) as nat) =~= space_seq(
                        (level * self.size + k) as nat,
                    ) + " "@);
                }
                indent.append(" ");
                k = k + 1;
            }
            proof {
                assert((level + 1) * self.size == level * self.size + self.size)
                    by (nonlinear_arith);
            }
            level = level + 1;
        }
        indent
    }
}

/// The indentation one level deeper.
pub open spec fn deeper(ind: Indentation) -> Indentation {
    Indentation { size: ind.size, count: (ind.count + 1) as usize }
}

/// The indentation a document starts at.
pub open spec fn initial_indentation(size: usize) -> Indentation {
    Indentation { size, count: 0 }
}

/// Whitespace for the purposes of [`Output::trim`]: the characters the
/// formatters themselves ever place at the edges of a document.
pub open spec fn is_layout_char(c: char) -> bool {
    c == ' ' || c == '\t' || c == '\n' || c == '\r'
}

fn layout_char(c: char) -> (b: bool)
    ensures
        b == is_layout_char(c),
{
    c == ' ' || c == '\t' || c == '\n' || c == '\r'
}

/// The suffix of `s` after its last newline (all of `s` if it has none).
pub open spec fn after_last_newline(s: Seq<char>) -> Seq<char>
    decreases s.len(),
{
    if s.len() == 0 {
        s
    } else if s.last() == '\n' {
        Seq::empty()
    } else {
        after_last_newline(s.drop_last()).push(s.last())
    }
}

/// The last line of `s`.  A trailing newline (or carriage return and
/// newline) terminates the last line rather than starting an empty one,
/// matching how lines of text are conventionally counted.
pub open spec fn current_line_of(s: Seq<char>) -> Seq<char> {
    if s.len() > 0 && s.last() == '\n' {
        let t = s.drop_last();
        if t.len() > 0 && t.last() == '\r' {
            after_last_newline(t.drop_last())
        } else {
            after_last_newline(t)
        }
    } else {
        after_last_newline(s)
    }
}

/// `s` is empty or ends with a newline, so that appended text starts a
/// fresh line.
pub open spec fn at_line_start(s: Seq<char>) -> bool {
    s.len() == 0 || s.last() == '\n'
}

/// Characterizes `after_last_newline` by the position after the last
/// newline: everything from `k` on, when nothing from `k` on is a newline
/// and `k` is either the start or just past a newline.
pub proof fn lemma_after_last_newline_at(s: Seq<char>, k: int)
    requires
        0 <= k <= s.len(),
        forall|i: int| k <= i < s.len() ==> s[i] != '\n',
        k == 0 || s[k - 1] == '\n',
    ensures
        after_last_newline(s) == s.subrange(k, s.len() as int),
    decreases s.len(),
{
    if s.len() == 0 {
        assert(after_last_newline(s) =~= s.subrange(0, 0));
    } else if s.last() == '\n' {
        assert(k == s.len());
        assert(after_last_newline(s) =~= s.subrange(k, s.len() as int));
    } else {
        assert(k < s.len());
        lemma_after_last_newline_at(s.drop_last(), k);
        assert(s.drop_last().subrange(k, s.drop_last().len() as int).push(s.last()) =~= s.subrange(
            k,
            s.len() as int,
        ));
    }
}

/// Text appended to a buffer at a line start determines the line suffix.
pub proof fn lemma_after_last_newline_concat(a: Seq<char>, b: Seq<char>)
    requires
        at_line_start(a),
    ensures
        after_last_newline(a + b) == after_last_newline(b),
    decreases b.len(),
{
    if b.len() == 0 {
        assert(a + b =~= a);
        if a.len() > 0 {
            assert(after_last_newline(a) =~= Seq::<char>::empty());
        }
        assert(after_last_newline(b) =~= Seq::<char>::empty());
    } else {
        let s = a + b;
        assert(s.last() == b.last());
        if b.last() != '\n' {
            lemma_after_last_newline_concat(a, b.drop_last());
            assert(s.drop_last() =~= a + b.drop_last());
        }
    }
}

/// A buffer ending in appended text that ends with a newline is at a line
/// start.
pub proof fn lemma_at_line_start_concat(a: Seq<char>, b: Seq<char>)
    requires
        b.len() > 0,
        b.last() == '\n',
    ensures
        at_line_start(a + b),
{
    assert((a + b).last() == b.last());
}

/// Strips leading layout characters.
pub open spec fn trim_front(s: Seq<char>) -> Seq<char>
    decreases s.len(),
{
    if s.len() > 0 && is_layout_char(s[0]) {
        trim_front(s.drop_first())
    } else {
        s
    }
}

/// Strips trailing layout characters.
pub open spec fn trim_back(s: Seq<char>) -> Seq<char>
    decreases s.len(),
{
    if s.len() > 0 && is_layout_char(s.last()) {
        trim_back(s.drop_last())
    } else {
        s
    }
}

/// Strips layout characters from both ends.
pub open spec fn trim_of(s: Seq<char>) -> Seq<char> {
    trim_back(trim_front(s))
}

proof fn lemma_trim_front_at(s: Seq<char>, k: int)
    requires
        0 <= k <= s.len(),
        forall|i: int| 0 <= i < k ==> is_layout_char(s[i]),
        k == s.len() || !is_layout_char(s[k]),
    ensures
        trim_front(s) == s.subrange(k, s.len() as int),
    decreases k,
{
    if k == 0 {
        assert(trim_front(s) =~= s.subrange(0, s.len() as int));
    } else {
        assert(is_layout_char(s[0]));
        lemma_trim_front_at(s.drop_first(), k - 1);
        assert(s.drop_first().subrange(k - 1, s.drop_first().len() as int) =~= s.subrange(
            k,
            s.len() as int,
        ));
    }
}

proof fn lemma_trim_back_at(s: Seq<char>, k: int)
    requires
        0 <= k <= s.len(),
        forall|i: int| k <= i < s.len() ==> is_layout_char(s[i]),
        k == 0 || !is_layout_char(s[k - 1]),
    ensures
        trim_back(s) == s.subrange(0, k),
    decreases s.len(),
{
    if k == s.len() {
        if s.len() > 0 && is_layout_char(s.last()) {
            assert(!is_layout_char(s[k - 1]));
            assert(false);
        }
        assert(trim_back(s) =~= s.subrange(0, k));
    } else {
        assert(is_layout_char(s.last()));
        lemma_trim_back_at(s.drop_last(), k);
        assert(s.drop_last().subrange(0, k) =~= s.subrange(0, k));
    }
}

/// Append-only text accumulator.  The formatters write into it top to
/// bottom; `current_line_length` feeds the wrap decision and `trim` yields
/// the final result.
pub struct Output {
    pub buf: String,
}

impl View for Output {
    type V = Seq<char>;

    open spec fn view(&self) -> Seq<char> {
        self.buf@
    }
}

impl Output {
    pub fn new() -> (r: Output)
        ensures
            r@ == Seq::<char>::empty(),
    {
        Output { buf: String::new() }
    }

    /// Appends `s` with no indentation prefix.
    pub fn push_str(&mut self, s: &str)
        ensures
            final(self)@ == old(self)@ + s@,
    {
        self.buf.append(s);
    }

    /// Appends the current indentation, then `s`.
    pub fn push(&mut self, s: &str, indent: &Indentation)
        ensures
            final(self)@ == old(self)@ + indent.spaces_spec() + s@,
    {
        let sp = indent.spaces();
        self.buf.append(sp.as_str());
        self.buf.append(s);
        proof {
            assert(old(self)@ + sp@ + s@ =~= old(self)@ + (sp@ + s@));
        }
    }

    /// The buffer's last (possibly unterminated) line.
    pub fn current_line(&self) -> (r: &str)
        ensures
            r@ == current_line_of(self@),
    {
        let s = self.buf.as_str();
        let n = s.unicode_len();
        let mut end = n;
        if end > 0 && s.get_char(end - 1) == '\n' {
            end = end - 1;
            if end > 0 && s.get_char(end - 1) == '\r' {
                end = end - 1;
            }
        }
        let ghost t = s@.subrange(0, end as int);
        proof {
            assert(current_line_of(s@) == after_last_newline(t)) by {
                if n > 0 && s@.last() == '\n' {
                    assert(s@.drop_last() =~= s@.subrange(0, n - 1));
                    if n - 1 > 0 && s@[n - 2] == '\r' {
                        assert(s@.drop_last().drop_last() =~= s@.subrange(0, n - 2));
                    }
                } else {
                    assert(t =~= s@);
                }
            }
        }
        let mut start = end;
        while start > 0 && s.get_char(start - 1) != '\n'
            invariant
                0 <= start <= end <= n,
                n == s@.len(),
                forall|i: int| start <= i < end ==> s@[i] != '\n',
            decreases start,
        {
            start = start - 1;
        }
        proof {
            assert(forall|i: int| start <= i < t.len() ==> t[i] != '\n');
            assert(start == 0 || t[start - 1] == '\n');
            lemma_after_last_newline_at(t, start as int);
            assert(t.subrange(start as int, t.len() as int) =~= s@.subrange(
                start as int,
                end as int,
            ));
        }
        s.substring_char(start, end)
    }

    /// Character count of the buffer's last line.
    pub fn current_line_length(&self) -> (r: usize)
        ensures
            r == current_line_of(self@).len(),
    {
        self.current_line().unicode_len()
    }

    /// The whole buffer, trimmed of leading and trailing whitespace.
    pub fn trim(&self) -> (r: String)
        ensures
            r@ == trim_of(self@),
    {
        let s = self.buf.as_str();
        let n = s.unicode_len();
        let mut start: usize = 0;
        while start < n && layout_char(s.get_char(start))
            invariant
                0 <= start <= n,
                n == s@.len(),
                forall|i: int| 0 <= i < start ==> is_layout_char(s@[i]),
            decreases n - start,
        {
            start = start + 1;
        }
        proof {
            lemma_trim_front_at(s@, start as int);
        }
        let ghost t = s@.subrange(start as int, n as int);
        let mut end = n;
        while end > start && layout_char(s.get_char(end - 1))
            invariant
                start <= end <= n,
                n == s@.len(),
                forall|i: int| end <= i < n ==> is_layout_char(s@[i]),
            decreases end,
        {
            end = end - 1;
        }
        proof {
            assert(forall|i: int| end - start <= i < t.len() ==> is_layout_char(t[i]));
            assert(end - start == 0 || !is_layout_char(t[end - start - 1]));
            lemma_trim_back_at(t, end - start as int);
            assert(t.subrange(0, end - start as int) =~= s@.subrange(start as int, end as int));
        }
        let r = s.substring_char(start, end);
        String::from_str(r)
    }

    /// The accumulated text.
    pub fn to_string(&self) -> (r: String)
        ensures
            r@ == self@,
    {
        self.buf.clone()
    }
}

/// `ts` joined by `sep`.
pub open spec fn join_texts(ts: Seq<Seq<char>>, sep: Seq<char>) -> Seq<char>
    decreases ts.len(),
{
    if ts.len() == 0 {
        Seq::empty()
    } else if ts.len() == 1 {
        ts[0]
    } else {
        ts[0] + sep + join_texts(ts.drop_first(), sep)
    }
}

pub proof fn lemma_join_texts_push(ts: Seq<Seq<char>>, sep: Seq<char>, x: Seq<char>)
    ensures
        join_texts(ts.push(x), sep) == if ts.len() == 0 {
            x
        } else {
            join_texts(ts, sep) + sep + x
        },
    decreases ts.len(),
{
    if ts.len() == 0 {
        assert(ts.push(x).len() == 1);
        assert(ts.push(x)[0] == x);
    } else {
        lemma_join_texts_push(ts.drop_first(), sep, x);
        assert(ts.push(x).drop_first() =~= ts.drop_first().push(x));
        assert(ts.push(x)[0] == ts[0]);
        if ts.len() == 1 {
            assert(ts.drop_first().len() == 0);
            assert(join_texts(ts.push(x), sep) == ts[0] + sep + x);
            assert(join_texts(ts, sep) == ts[0]);
        } else {
            assert(ts[0] + sep + (join_texts(ts.drop_first(), sep) + sep + x) =~= (ts[0] + sep
                + join_texts(ts.drop_first(), sep)) + sep + x);
        }
    }
}

/// Appends `items` joined by `sep` to a fresh string.
pub fn join_strings(items: &Vec<String>, sep: &str) -> (r: String)
    ensures
        r@ == join_texts(items.deep_view(), sep@),
{
    let mut r = String::new();
    let mut i: usize = 0;
    while i < items.len()
        invariant
            0 <= i <= items.len(),
            r@ == join_texts(items.deep_view().take(i as int), sep@),
        decreases items.len() - i,
    {
        proof {
            assert(items.deep_view().take(i as int).push(items.deep_view()[i as int])
                =~= items.deep_view().take(i + 1));
            lemma_join_texts_push(items.deep_view().take(i as int), sep@, items.deep_view()[
                i as int
            ]);
        }
        if i > 0 {
            r.append(sep);
        }
        r.append(items[i].as_str());
        i = i + 1;
    }
    proof {
        assert(items.deep_view().take(items@.len() as int) =~= items.deep_view());
    }
    r
}

} // verus!
