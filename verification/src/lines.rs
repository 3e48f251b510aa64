use crate::configuration::{forest, indent, lemma_view_kids, Config, NestedCommand, Tree};
use crate::dump::{line_views, parse_dump};
use crate::text::{chars_of, text_of};
use vstd::prelude::*;

verus! {


/// The lines of a tree whose root stands `depth` levels deep: the root's
/// line behind its indentation and, where the root has a list below it, the
/// lines of the list's trees one level deeper and the line `$`.
pub open spec fn tree_lines(t: Tree, depth: nat) -> Seq<Seq<char>>
    decreases t, 0nat,
{
    seq![indent(depth) + t.line] + match t.kids {
        None => Seq::empty(),
        Some(kids) => forest_lines(kids, kids.len(), depth + 1).push("$"@),
    }
}

/// The lines of the first `n` trees of `trees`, one after the other.
pub open spec fn forest_lines(trees: Seq<Tree>, n: nat, depth: nat) -> Seq<Seq<char>>
    decreases trees, n,
{
    if n == 0 || n > trees.len() {
        Seq::empty()
    } else {
        forest_lines(trees, (n - 1) as nat, depth) + tree_lines(trees[n - 1], depth)
    }
}

/// The lines of one section: the line that opens it, the lines of its
/// trees, the line that closes it.
pub open spec fn section_lines(section: (Seq<char>, Seq<Tree>)) -> Seq<Seq<char>> {
    seq!["!<"@ + section.0 + ">"@] + forest_lines(section.1, section.1.len(), 0) + seq![
        "!</"@ + section.0 + ">"@,
    ]
}

/// The lines of the first `n` sections of `s`, one after the other.
pub open spec fn config_lines(s: Seq<(Seq<char>, Seq<Tree>)>, n: nat) -> Seq<Seq<char>>
    decreases n,
{
    if n == 0 || n > s.len() {
        Seq::empty()
    } else {
        config_lines(s, (n - 1) as nat) + section_lines(s[n - 1])
    }
}

/// Puts `line` at the end of `out`.
fn push_line(out: &mut Vec<String>, line: String)
    ensures
        line_views(final(out)@) == line_views(old(out)@).push(line@),
{
    let ghost before = line_views(out@);
    out.push(line);
    assert(line_views(out@) =~= before.push(line@));
}

/// Puts the lines of `node` at the end of `out`, behind the margin of its depth.
fn push_tree_lines(
    node: &NestedCommand,
    margin: &str,
    Ghost(depth): Ghost<nat>,
    out: &mut Vec<String>,
)
    requires
        margin@ == indent(depth),
    ensures
        line_views(final(out)@) == line_views(old(out)@) + tree_lines(node@, depth),
    decreases node,
{
    proof {
        lemma_view_kids(*node);
    }
    let ghost start = line_views(out@);
    let mut first = String::from_str(margin);
    first.append(node.command.as_str());
    push_line(out, first);
    match &node.nested {
        None => {
            assert(line_views(out@) =~= start + tree_lines(node@, depth));
        },
        Some(v) => {
            let mut deeper = String::from_str(margin);
            deeper.append("  ");
            let ghost head = line_views(out@);
            let ghost kids = forest(v@);
            let mut i: usize = 0;
            assert(head =~= head + forest_lines(kids, 0, depth + 1));
            while i < v.len()
                invariant
                    i <= v.len(),
                    node.nested == Some(*v),
                    kids == forest(v@),
                    deeper@ == indent(depth + 1),
                    line_views(out@) == head + forest_lines(kids, i as nat, depth + 1),
                decreases v.len() - i,
            {
                proof {
                    assert(decreases_to!(*node => node.nested));
                    assert(decreases_to!(node.nested => node.nested.unwrap()));
                    assert(decreases_to!(node.nested.unwrap() => node.nested.unwrap()[i as int]));
                    assert(node.nested.unwrap()[i as int] == v@[i as int]);
                    assert(kids[i as int] == v@[i as int]@);
                }
                push_tree_lines(&v[i], deeper.as_str(), Ghost(depth + 1), out);
                i = i + 1;
                assert(line_views(out@) =~= head + forest_lines(kids, i as nat, depth + 1));
            }
            push_line(out, String::from_str("$"));
            assert(line_views(out@) =~= start + tree_lines(node@, depth));
        },
    }
}

impl Config {
    /// The lines of the configuration: those of its sections, one after the
    /// other.
    pub fn lines(&self) -> (out: Vec<String>)
        ensures
            line_views(out@) == config_lines(self@, self@.len()),
    {
        let mut out: Vec<String> = Vec::new();
        let mut i: usize = 0;
        assert(line_views(out@) =~= config_lines(self@, 0));
        while i < self.0.len()
            invariant
                i <= self.0.len(),
                line_views(out@) == config_lines(self@, i as nat),
            decreases self.0.len() - i,
        {
            let ghost head = line_views(out@);
            let mut opener = String::from_str("!<");
            opener.append(self.0[i].0.as_str());
            opener.append(">");
            push_line(&mut out, opener);
            let list = &self.0[i].1;
            let ghost trees = forest(list@);
            assert(self@[i as int] == (self.0[i as int].0@, trees));
            let ghost body = line_views(out@);
            let mut j: usize = 0;
            proof {
                reveal_strlit("");
                assert(""@ =~= indent(0));
                assert(body =~= body + forest_lines(trees, 0, 0));
            }
            while j < list.len()
                invariant
                    j <= list.len(),
                    trees == forest(list@),
                    ""@ == indent(0),
                    line_views(out@) == body + forest_lines(trees, j as nat, 0),
                decreases list.len() - j,
            {
                assert(trees[j as int] == list@[j as int]@);
                push_tree_lines(&list[j], "", Ghost(0), &mut out);
                j = j + 1;
                assert(line_views(out@) =~= body + forest_lines(trees, j as nat, 0));
            }
            let mut closer = String::from_str("!</");
            closer.append(self.0[i].0.as_str());
            closer.append(">");
            push_line(&mut out, closer);
            i = i + 1;
            assert(line_views(out@) =~= head + section_lines(self@[i - 1]));
        }
        out
    }
}

/// The text made of `lines`, each followed by a line feed.
pub open spec fn joined(lines: Seq<Seq<char>>) -> Seq<char>
    decreases lines.len(),
{
    if lines.len() == 0 {
        Seq::empty()
    } else {
        joined(lines.drop_last()) + lines.last() + "\n"@
    }
}

/// How many characters stand in `t` before its first line feed; all of
/// them where it has none.
pub open spec fn line_end(t: Seq<char>) -> nat
    decreases t.len(),
{
    if t.len() == 0 || t[0] == '\n' {
        0
    } else {
        1 + line_end(t.drop_first())
    }
}

/// The lines of a text: what stands between its line feeds, and what
/// follows the last one unless that is nothing.
pub open spec fn lines_of(t: Seq<char>) -> Seq<Seq<char>>
    decreases t.len(),
{
    if t.len() == 0 {
        Seq::empty()
    } else {
        let k = line_end(t) as int;
        if k >= t.len() {
            seq![t]
        } else {
            seq![t.subrange(0, k)] + lines_of(t.subrange(k + 1, t.len() as int))
        }
    }
}

/// Where no line feed stands among the first `k` characters of `t`, its
/// first line is at least as long; it is just as long where one stands next.
pub proof fn lemma_line_end(t: Seq<char>, k: nat)
    requires
        k <= t.len(),
        forall|i: int| 0 <= i < k ==> t[i] != '\n',
    ensures
        line_end(t) >= k,
        line_end(t) <= t.len(),
        k < t.len() && t[k as int] == '\n' ==> line_end(t) == k,
        k == t.len() ==> line_end(t) == k,
    decreases t.len(),
{
    if t.len() == 0 || t[0] == '\n' {
    } else if k == 0 {
        lemma_line_end(t.drop_first(), 0);
    } else {
        lemma_line_end(t.drop_first(), (k - 1) as nat);
    }
}

/// The lines of a text. Each line costs as much as the text before it is
/// long: a long dump is better read line by line and handed to `parse`.
pub fn split_lines(text: &str) -> (out: Vec<String>)
    ensures
        line_views(out@) == lines_of(text@),
{
    let t = chars_of(text);
    let n = t.len();
    let mut out: Vec<String> = Vec::new();
    let mut start: usize = 0;
    let mut i: usize = 0;
    assert(t@.subrange(0, n as int) =~= t@);
    assert(line_views(out@) =~= Seq::<Seq<char>>::empty());
    while i < n
        invariant
            start <= i <= n,
            n == t.len(),
            t@ == text@,
            forall|j: int| start <= j < i ==> t@[j] != '\n',
            lines_of(t@) == line_views(out@) + lines_of(t@.subrange(start as int, n as int)),
        decreases n - i,
    {
        if t[i] == '\n' {
            let ghost rest = t@.subrange(start as int, n as int);
            let ghost done = line_views(out@);
            proof {
                assert forall|j: int| 0 <= j < i - start implies rest[j] != '\n' by {
                    assert(rest[j] == t@[start + j]);
                }
                assert(rest[i - start] == t@[i as int]);
                lemma_line_end(rest, (i - start) as nat);
                assert(rest.subrange(0, i - start) =~= t@.subrange(start as int, i as int));
                assert(rest.subrange(i - start + 1, rest.len() as int) =~= t@.subrange(
                    i + 1,
                    n as int,
                ));
            }
            push_line(&mut out, text_of(&t, start, i, text));
            start = i + 1;
            assert(lines_of(t@) =~= line_views(out@) + lines_of(t@.subrange(start as int, n as int)));
        }
        i = i + 1;
    }
    let ghost rest = t@.subrange(start as int, n as int);
    proof {
        assert forall|j: int| 0 <= j < n - start implies rest[j] != '\n' by {
            assert(rest[j] == t@[start + j]);
        }
        lemma_line_end(rest, (n - start) as nat);
    }
    if start < n {
        let ghost done = line_views(out@);
        push_line(&mut out, text_of(&t, start, n, text));
        assert(lines_of(t@) =~= line_views(out@));
    } else {
        assert(lines_of(t@) =~= line_views(out@));
    }
    out
}

impl Config {
    /// Reads a dump from its text, line by line.
    pub fn parse_text(text: &str) -> (out: Config)
        ensures
            out@ == parse_dump(lines_of(text@)),
            out.wf(),
    {
        let lines = split_lines(text);
        Config::parse(&lines)
    }
}

} // verus!
