use crate::configuration::{
    distinct_names, indent, leaf, lemma_position_from, position, section_text, sections_text,
    tree_text, trees_text, with_child, Tree,
};
use crate::dump::{add_entry, attach, classify, parse_dump, parse_state, run, step, DumpState, LineKind};
use crate::lines::{
    config_lines, forest_lines, joined, lemma_line_end, lines_of, section_lines, tree_lines,
};
use crate::text::{
    first_occurrence, has_char, last_occurrence, is_blank, leading_blanks, leading_spaces, occurs_at,
    trailing_blanks,
};
use vstd::prelude::*;

verus! {

/// At whatever depth it is written, `line` is read as itself at that depth.
pub open spec fn entry_line(line: Seq<char>) -> bool {
    forall|depth: nat| classify(#[trigger] indent(depth) + line) == LineKind::Entry(depth, line)
}

/// Every line of `t` is read as itself, and no list in `t` is empty.
pub open spec fn readable_tree(t: Tree) -> bool
    decreases t,
{
    &&& entry_line(t.line)
    &&& match t.kids {
        None => true,
        Some(kids) => kids.len() > 0 && forall|i: int|
            0 <= i < kids.len() ==> readable_tree(#[trigger] kids[i]),
    }
}

/// The markers of a section named `name` are read as such.
pub open spec fn readable_name(name: Seq<char>) -> bool {
    classify("!<"@ + name + ">"@) == LineKind::Open(name) && classify("!</"@ + name + ">"@)
        == LineKind::Close
}

/// The names of `s` are distinct and readable, and so are all its trees.
pub open spec fn readable_config(s: Seq<(Seq<char>, Seq<Tree>)>) -> bool {
    &&& distinct_names(s)
    &&& forall|i: int| 0 <= i < s.len() ==> readable_name(#[trigger] s[i].0)
    &&& forall|i: int, j: int|
        0 <= i < s.len() && 0 <= j < s[i].1.len() ==> readable_tree(#[trigger] s[i].1[j])
}

/// One can go `depth` times from a command to the last one below it.
pub open spec fn reach(t: Tree, depth: nat) -> bool
    decreases depth,
{
    depth == 0 || (t.kids is Some && t.kids->0.len() > 0 && reach(
        t.kids->0.last(),
        (depth - 1) as nat,
    ))
}

/// A line `depth` levels deep finds its place in `list`.
pub open spec fn has_place(list: Seq<Tree>, depth: nat) -> bool {
    depth == 0 || (list.len() > 0 && reach(list.last(), (depth - 1) as nat))
}

/// `st` with `list` as the commands of section `i`.
pub open spec fn with_list(st: DumpState, i: int, list: Seq<Tree>) -> DumpState {
    DumpState { sections: st.sections.update(i, (st.sections[i].0, list)), open: st.open }
}

/// Reading two lists of lines one after the other is reading them as one.
proof fn lemma_run_concat(st: DumpState, a: Seq<Seq<char>>, b: Seq<Seq<char>>, n: nat)
    requires
        n <= b.len(),
    ensures
        run(st, a + b, a.len() + n) == run(run(st, a, a.len()), b, n),
    decreases n,
{
    if n == 0 {
        lemma_run_prefix(st, a, a + b, a.len());
    } else {
        lemma_run_concat(st, a, b, (n - 1) as nat);
        assert((a + b)[a.len() + n - 1] == b[n - 1]);
    }
}

/// What a front of the lines gives does not depend on what follows it.
proof fn lemma_run_prefix(st: DumpState, a: Seq<Seq<char>>, whole: Seq<Seq<char>>, n: nat)
    requires
        n <= a.len() <= whole.len(),
        forall|i: int| 0 <= i < a.len() ==> a[i] == whole[i],
    ensures
        run(st, whole, n) == run(st, a, n),
    decreases n,
{
    if n > 0 {
        lemma_run_prefix(st, a, whole, (n - 1) as nat);
    }
}

/// Below a command that was just attached one can go one level further.
proof fn lemma_reach_after_attach(t: Tree, depth: nat, child: Tree)
    requires
        reach(t, depth),
    ensures
        reach(attach(t, depth, child), depth + 1),
    decreases depth,
{
    if depth > 0 {
        lemma_reach_after_attach(t.kids->0.last(), (depth - 1) as nat, child);
    } else {
        assert(reach(child, 0));
    }
}

/// After a line, a line one level deeper finds its place.
proof fn lemma_place_after_entry(list: Seq<Tree>, depth: nat, child: Tree)
    requires
        has_place(list, depth),
    ensures
        has_place(add_entry(list, depth, child), depth + 1),
{
    if depth > 0 {
        lemma_reach_after_attach(list.last(), (depth - 1) as nat, child);
    }
}

/// Attaching a tree and then a child to it is attaching the tree with the child.
proof fn lemma_attach_twice(t: Tree, depth: nat, sub: Tree, child: Tree)
    requires
        reach(t, depth),
    ensures
        attach(attach(t, depth, sub), depth + 1, child) == attach(t, depth, with_child(sub, child)),
    decreases depth,
{
    if depth > 0 {
        lemma_attach_twice(t.kids->0.last(), (depth - 1) as nat, sub, child);
        let kids = t.kids->0;
        let once = kids.drop_last().push(attach(kids.last(), (depth - 1) as nat, sub));
        assert(once.drop_last() =~= kids.drop_last());
    } else {
        let kids = with_child(t, sub).kids->0;
        assert(kids.last() == sub);
        let before = match t.kids {
            None => Seq::<Tree>::empty(),
            Some(k) => k,
        };
        assert(kids.drop_last() =~= before);
        assert(attach(sub, 0, child) == with_child(sub, child));
        assert(kids.drop_last().push(with_child(sub, child)) =~= with_child(
            t,
            with_child(sub, child),
        ).kids->0);
    }
}

/// Adding a tree and then a child to it is adding the tree with the child.
proof fn lemma_entry_twice(list: Seq<Tree>, depth: nat, sub: Tree, child: Tree)
    requires
        has_place(list, depth),
    ensures
        add_entry(add_entry(list, depth, sub), depth + 1, child) == add_entry(
            list,
            depth,
            with_child(sub, child),
        ),
{
    if depth > 0 {
        lemma_attach_twice(list.last(), (depth - 1) as nat, sub, child);
        let once = add_entry(list, depth, sub);
        assert(once.drop_last() =~= list.drop_last());
    } else {
        let once = list.push(sub);
        assert(once.drop_last() =~= list);
        assert(attach(sub, 0, child) == with_child(sub, child));
    }
}

/// `t` with only the first `n` items of the list below it.
pub open spec fn first_kids(t: Tree, n: nat) -> Tree {
    Tree {
        line: t.line,
        kids: if n == 0 {
            None
        } else {
            Some(t.kids->0.subrange(0, n as int))
        },
    }
}

/// The line of `t` and the lines of the first `n` trees below it.
pub open spec fn head_lines(t: Tree, depth: nat, n: nat) -> Seq<Seq<char>> {
    seq![indent(depth) + t.line] + forest_lines(t.kids->0, n, depth + 1)
}

/// The line of a readable tree and the lines of its first `n` trees put
/// the tree, with those first trees below it, where a line of its depth goes.
proof fn lemma_head_lines(st: DumpState, i: int, t: Tree, depth: nat, n: nat)
    requires
        readable_tree(t),
        st.open == Some(i),
        0 <= i < st.sections.len(),
        has_place(st.sections[i].1, depth),
        n == 0 || (t.kids is Some && n <= t.kids->0.len()),
    ensures
        run(st, head_lines(t, depth, n), head_lines(t, depth, n).len()) == with_list(
            st,
            i,
            add_entry(st.sections[i].1, depth, first_kids(t, n)),
        ),
    decreases t, n,
{
    let list = st.sections[i].1;
    let first = indent(depth) + t.line;
    if n == 0 {
        let lines = head_lines(t, depth, 0);
        assert(lines =~= seq![first]);
        assert(run(st, lines, 0) == st);
        assert(run(st, lines, 1) == step(st, first));
        assert(first_kids(t, 0) == leaf(t.line));
    } else {
        let kids = t.kids->0;
        let before = head_lines(t, depth, (n - 1) as nat);
        let kid = kids[n - 1];
        let more = tree_lines(kid, depth + 1);
        lemma_head_lines(st, i, t, depth, (n - 1) as nat);
        let mid = run(st, before, before.len());
        let sub = first_kids(t, (n - 1) as nat);
        lemma_place_after_entry(list, depth, sub);
        assert(mid.sections[i].1 == add_entry(list, depth, sub));
        lemma_tree_lines(mid, i, kid, depth + 1);
        lemma_entry_twice(list, depth, sub, kid);
        assert(head_lines(t, depth, n) =~= before + more);
        lemma_run_concat(st, before, more, more.len());
        if n == 1 {
            assert(with_child(sub, kid).kids->0 =~= kids.subrange(0, 1));
        } else {
            assert(with_child(sub, kid).kids->0 =~= kids.subrange(0, n as int));
        }
        assert(with_child(sub, kid) == first_kids(t, n));
        assert(with_list(mid, i, add_entry(mid.sections[i].1, depth + 1, kid)).sections
            =~= with_list(st, i, add_entry(list, depth, first_kids(t, n))).sections);
    }
}

/// The lines of a readable tree put the tree where a line of its depth goes.
pub proof fn lemma_tree_lines(st: DumpState, i: int, t: Tree, depth: nat)
    requires
        readable_tree(t),
        st.open == Some(i),
        0 <= i < st.sections.len(),
        has_place(st.sections[i].1, depth),
    ensures
        run(st, tree_lines(t, depth), tree_lines(t, depth).len()) == with_list(
            st,
            i,
            add_entry(st.sections[i].1, depth, t),
        ),
    decreases t, (if t.kids is Some {
        t.kids->0.len() + 1
    } else {
        1
    }),
{
    match t.kids {
        None => {
            lemma_head_lines(st, i, t, depth, 0);
            assert(tree_lines(t, depth) =~= head_lines(t, depth, 0));
            assert(first_kids(t, 0) == t);
        },
        Some(kids) => {
            let n = kids.len();
            lemma_head_lines(st, i, t, depth, n);
            let head = head_lines(t, depth, n);
            assert(tree_lines(t, depth) =~= head.push("$"@));
            assert(kids.subrange(0, n as int) =~= kids);
            assert(first_kids(t, n) == t);
            lemma_closer_is_skipped();
            let lines = tree_lines(t, depth);
            lemma_run_prefix(st, head, lines, head.len());
        },
    }
}

/// A line that holds only `$` says nothing.
pub proof fn lemma_closer_is_skipped()
    ensures
        classify("$"@) == LineKind::Skip,
{
    reveal_strlit("$");
    reveal_strlit("!<");
    let t = "$"@;
    assert(t[0] == '$');
    assert(crate::text::has_char(t, '$'));
    assert(!crate::text::occurs_at(t, 0, "!<"@));
    reveal_with_fuel(crate::text::first_occurrence, 2);
}

/// The lines of readable trees fill an empty open section with those trees.
proof fn lemma_forest_lines(st: DumpState, i: int, trees: Seq<Tree>, n: nat)
    requires
        st.open == Some(i),
        0 <= i < st.sections.len(),
        st.sections[i].1.len() == 0,
        n <= trees.len(),
        forall|j: int| 0 <= j < trees.len() ==> readable_tree(#[trigger] trees[j]),
    ensures
        run(st, forest_lines(trees, n, 0), forest_lines(trees, n, 0).len()) == with_list(
            st,
            i,
            trees.subrange(0, n as int),
        ),
    decreases n,
{
    if n == 0 {
        assert(trees.subrange(0, 0) =~= st.sections[i].1);
        assert(with_list(st, i, trees.subrange(0, 0)).sections =~= st.sections);
    } else {
        let before = forest_lines(trees, (n - 1) as nat, 0);
        let more = tree_lines(trees[n - 1], 0);
        lemma_forest_lines(st, i, trees, (n - 1) as nat);
        let mid = run(st, before, before.len());
        lemma_tree_lines(mid, i, trees[n - 1], 0);
        lemma_run_concat(st, before, more, more.len());
        assert(trees.subrange(0, n - 1).push(trees[n - 1]) =~= trees.subrange(0, n as int));
        assert(with_list(mid, i, add_entry(mid.sections[i].1, 0, trees[n - 1])).sections
            =~= with_list(st, i, trees.subrange(0, n as int)).sections);
    }
}

/// The lines of a readable section add that section and leave none open.
proof fn lemma_section_lines(st: DumpState, section: (Seq<char>, Seq<Tree>))
    requires
        readable_name(section.0),
        position(st.sections, section.0) is None,
        forall|j: int| 0 <= j < section.1.len() ==> readable_tree(#[trigger] section.1[j]),
    ensures
        run(st, section_lines(section), section_lines(section).len()) == (DumpState {
            sections: st.sections.push(section),
            open: None,
        }),
{
    let name = section.0;
    let trees = section.1;
    let opener = seq!["!<"@ + name + ">"@];
    let body = forest_lines(trees, trees.len(), 0);
    let closer = seq!["!</"@ + name + ">"@];
    let lines = section_lines(section);
    let i = st.sections.len() as int;
    let opened = DumpState { sections: st.sections.push((name, Seq::empty())), open: Some(i) };
    assert(run(st, opener, 0) == st);
    assert(run(st, opener, 1) == opened);
    lemma_forest_lines(opened, i, trees, trees.len());
    assert(trees.subrange(0, trees.len() as int) =~= trees);
    let filled = with_list(opened, i, trees);
    assert(filled.sections =~= st.sections.push(section));
    lemma_run_concat(st, opener, body, body.len());
    let front = opener + body;
    assert(run(st, front, front.len()) == filled);
    assert(lines =~= front + closer);
    lemma_run_concat(st, front, closer, 1);
    assert(run(filled, closer, 0) == filled);
    assert(run(filled, closer, 1) == step(filled, closer[0]));
}

/// The lines of the first `n` sections are read as those sections.
proof fn lemma_config_lines(s: Seq<(Seq<char>, Seq<Tree>)>, n: nat)
    requires
        readable_config(s),
        n <= s.len(),
    ensures
        parse_state(config_lines(s, n), config_lines(s, n).len()) == (DumpState {
            sections: s.subrange(0, n as int),
            open: None,
        }),
    decreases n,
{
    let start = DumpState { sections: Seq::empty(), open: None };
    if n == 0 {
        assert(s.subrange(0, 0) =~= Seq::empty());
    } else {
        lemma_config_lines(s, (n - 1) as nat);
        let before = config_lines(s, (n - 1) as nat);
        let more = section_lines(s[n - 1]);
        let mid = run(start, before, before.len());
        lemma_position_from(mid.sections, s[n - 1].0, 0);
        assert(position(mid.sections, s[n - 1].0) is None) by {
            if position(mid.sections, s[n - 1].0) is Some {
                let k = position(mid.sections, s[n - 1].0)->0;
                assert(mid.sections[k] == s[k]);
            }
        }
        assert forall|j: int| 0 <= j < s[n - 1].1.len() implies readable_tree(
            #[trigger] s[n - 1].1[j],
        ) by {
            assert(readable_tree(s[n - 1].1[j]));
        }
        lemma_section_lines(mid, s[n - 1]);
        lemma_run_concat(start, before, more, more.len());
        assert(s.subrange(0, n - 1).push(s[n - 1]) =~= s.subrange(0, n as int));
    }
}

/// A line that can stand in a dump as a command: not empty, with no white
/// space at its front or at its end, without `$`, and without `!<` that a
/// `>` follows.
pub open spec fn plain_line(line: Seq<char>) -> bool {
    &&& line.len() > 0
    &&& !is_blank(line[0])
    &&& !is_blank(line.last())
    &&& !has_char(line, '$')
    &&& forall|a: int, b: int|
        #[trigger] occurs_at(line, a, "!<"@) && a + 2 <= b < line.len() ==> #[trigger] line[b]
            != '>'
}

/// Every line of `t` is plain, and no list in `t` is empty.
pub open spec fn plain_tree(t: Tree) -> bool
    decreases t,
{
    &&& plain_line(t.line)
    &&& match t.kids {
        None => true,
        Some(kids) => kids.len() > 0 && forall|i: int|
            0 <= i < kids.len() ==> plain_tree(#[trigger] kids[i]),
    }
}

/// A name that can stand in a marker: it does not start with `/`.
pub open spec fn plain_name(name: Seq<char>) -> bool {
    name.len() == 0 || name[0] != '/'
}

/// A configuration that can be written and read back: its names are
/// distinct and plain, and so are all its trees.
pub open spec fn plain_config(s: Seq<(Seq<char>, Seq<Tree>)>) -> bool {
    &&& distinct_names(s)
    &&& forall|i: int| 0 <= i < s.len() ==> plain_name(#[trigger] s[i].0)
    &&& forall|i: int, j: int|
        0 <= i < s.len() && 0 <= j < s[i].1.len() ==> plain_tree(#[trigger] s[i].1[j])
}

/// The margin of depth `depth` is twice as many spaces.
proof fn lemma_indent(depth: nat)
    ensures
        indent(depth).len() == 2 * depth,
        forall|k: int| 0 <= k < 2 * depth ==> indent(depth)[k] == ' ',
    decreases depth,
{
    reveal_strlit("  ");
    if depth > 0 {
        lemma_indent((depth - 1) as nat);
    }
}

/// Spaces before a text that starts with no white space are all the white
/// space at the front of the whole.
proof fn lemma_leading_run(a: Seq<char>, b: Seq<char>)
    requires
        forall|k: int| 0 <= k < a.len() ==> a[k] == ' ',
        b.len() > 0,
        !is_blank(b[0]),
    ensures
        leading_spaces(a + b) == a.len(),
        leading_blanks(a + b) == a.len(),
    decreases a.len(),
{
    if a.len() == 0 {
        assert(a + b =~= b);
    } else {
        assert((a + b)[0] == a[0]);
        assert((a + b).drop_first() =~= a.drop_first() + b);
        lemma_leading_run(a.drop_first(), b);
    }
}

/// Where `pat` stands nowhere from `lo` to `hi`, it has no last occurrence there.
proof fn lemma_no_last_occurrence(t: Seq<char>, pat: Seq<char>, lo: int, hi: int)
    requires
        forall|k: int| lo <= k <= hi ==> !occurs_at(t, k, pat),
    ensures
        last_occurrence(t, pat, lo, hi) is None,
    decreases hi - lo + 1,
{
    if hi >= lo {
        lemma_no_last_occurrence(t, pat, lo, hi - 1);
    }
}

/// The first occurrence of `pat` is an occurrence of it.
proof fn lemma_first_occurrence_found(t: Seq<char>, pat: Seq<char>, lo: int, hi: int)
    ensures
        match first_occurrence(t, pat, lo, hi) {
            Some(a) => lo <= a <= hi && occurs_at(t, a, pat),
            None => true,
        },
    decreases hi - lo + 1,
{
    if hi >= lo && !occurs_at(t, lo, pat) {
        lemma_first_occurrence_found(t, pat, lo + 1, hi);
    }
}

/// A plain line is read as itself at whatever depth it is written.
pub proof fn lemma_plain_line_is_read(line: Seq<char>)
    requires
        plain_line(line),
    ensures
        entry_line(line),
{
    reveal_strlit("!<");
    reveal_strlit(">");
    assert forall|depth: nat| classify(#[trigger] indent(depth) + line) == LineKind::Entry(
        depth,
        line,
    ) by {
        let margin = indent(depth);
        let t = margin + line;
        let n = t.len() as int;
        lemma_indent(depth);
        lemma_leading_run(margin, line);
        lemma_first_occurrence_found(t, "!<"@, 0, n - 2);
        match first_occurrence(t, "!<"@, 0, n - 2) {
            None => {},
            Some(a) => {
                let m = margin.len() as int;
                assert(t.subrange(a, a + 2)[0] == '!');
                assert(t[a] == '!');
                assert(a >= m) by {
                    if a < m {
                        assert(t[a] == ' ');
                    }
                }
                assert(line.subrange(a - m, a - m + 2) =~= t.subrange(a, a + 2));
                assert(occurs_at(line, a - m, "!<"@));
                assert forall|b: int| a + 2 <= b <= n - 1 implies !occurs_at(t, b, ">"@) by {
                    if occurs_at(t, b, ">"@) {
                        assert(t.subrange(b, b + 1)[0] == '>');
                        assert(t[b] == line[b - m]);
                        assert(line[b - m] != '>');
                    }
                }
                lemma_no_last_occurrence(t, ">"@, a + 2, n - 1);
            },
        }
        assert(!has_char(t, '$')) by {
            if has_char(t, '$') {
                let k = choose|k: int| 0 <= k < t.len() && t[k] == '$';
                if k < margin.len() {
                    assert(t[k] == ' ');
                } else {
                    assert(line[k - margin.len()] == '$');
                }
            }
        }
        assert(t.last() == line.last());
        assert(trailing_blanks(t) == 0);
        assert(t.subrange(margin.len() as int, n) =~= line);
        assert(leading_spaces(t) / 2 == depth);
    }
}

/// The markers of a section with a plain name are read as such.
pub proof fn lemma_plain_name_is_read(name: Seq<char>)
    requires
        plain_name(name),
    ensures
        readable_name(name),
{
    reveal_strlit("!<");
    reveal_strlit("!</");
    reveal_strlit(">");
    let opener = "!<"@ + name + ">"@;
    let n = opener.len() as int;
    assert(opener.subrange(0, 2) =~= "!<"@);
    assert(opener.subrange(n - 1, n) =~= ">"@);
    assert(opener.subrange(2, n - 1) =~= name);
    assert(name.len() > 0 ==> opener[2] == name[0]);
    let closer = "!</"@ + name + ">"@;
    let m = closer.len() as int;
    assert(closer.subrange(0, 2) =~= "!<"@);
    assert(closer.subrange(m - 1, m) =~= ">"@);
    assert(closer[2] == '/');
}

/// A plain tree is readable.
proof fn lemma_plain_tree_is_read(t: Tree)
    requires
        plain_tree(t),
    ensures
        readable_tree(t),
    decreases t,
{
    lemma_plain_line_is_read(t.line);
    match t.kids {
        None => {},
        Some(kids) => {
            assert forall|i: int| 0 <= i < kids.len() implies readable_tree(
                #[trigger] kids[i],
            ) by {
                lemma_plain_tree_is_read(kids[i]);
            }
        },
    }
}

/// A configuration that was written is read back as it was: for every
/// configuration whose names are distinct and plain, whose lines are plain
/// and whose lists are not empty, reading its lines gives the same sections
/// with the same trees, in the same order.
pub proof fn lemma_config_round_trip(s: Seq<(Seq<char>, Seq<Tree>)>)
    requires
        plain_config(s),
    ensures
        parse_dump(config_lines(s, s.len())) == s,
{
    assert forall|i: int| 0 <= i < s.len() implies readable_name(#[trigger] s[i].0) by {
        lemma_plain_name_is_read(s[i].0);
    }
    assert forall|i: int, j: int| 0 <= i < s.len() && 0 <= j < s[i].1.len() implies readable_tree(
        #[trigger] s[i].1[j],
    ) by {
        lemma_plain_tree_is_read(s[i].1[j]);
    }
    lemma_config_lines(s, s.len());
    assert(s.subrange(0, s.len() as int) =~= s);
}

/// Joining two lists of lines is joining each and putting the texts together.
proof fn lemma_joined_add(a: Seq<Seq<char>>, b: Seq<Seq<char>>)
    ensures
        joined(a + b) == joined(a) + joined(b),
    decreases b.len(),
{
    if b.len() == 0 {
        assert(a + b =~= a);
        assert(joined(a) + joined(b) =~= joined(a));
    } else {
        lemma_joined_add(a, b.drop_last());
        assert((a + b).drop_last() =~= a + b.drop_last());
        assert((a + b).last() == b.last());
        assert(joined(a + b) =~= joined(a) + joined(b));
    }
}

/// One line joined is the line and a line feed.
proof fn lemma_joined_one(line: Seq<char>)
    ensures
        joined(seq![line]) == line + "\n"@,
{
    reveal_with_fuel(joined, 2);
    assert(seq![line].drop_last() =~= Seq::<Seq<char>>::empty());
    assert(joined(seq![line]) =~= line + "\n"@);
}

/// The text of a tree is made of its lines.
proof fn lemma_tree_text(t: Tree, depth: nat)
    ensures
        tree_text(t, depth) == joined(tree_lines(t, depth)),
    decreases t, 0nat,
{
    let first = seq![indent(depth) + t.line];
    lemma_joined_one(indent(depth) + t.line);
    match t.kids {
        None => {
            assert(tree_lines(t, depth) =~= first);
            assert(tree_text(t, depth) =~= joined(first));
        },
        Some(kids) => {
            let body = forest_lines(kids, kids.len(), depth + 1);
            lemma_trees_text(kids, kids.len(), depth + 1);
            lemma_joined_one("$"@);
            lemma_joined_add(body, seq!["$"@]);
            lemma_joined_add(first, body + seq!["$"@]);
            assert(tree_lines(t, depth) =~= first + (body + seq!["$"@]));
            reveal_strlit("$\n");
            reveal_strlit("$");
            reveal_strlit("\n");
            assert("$\n"@ =~= "$"@ + "\n"@);
            assert(tree_text(t, depth) =~= joined(first) + (joined(body) + joined(seq!["$"@])));
        },
    }
}

/// The text of trees is made of their lines.
proof fn lemma_trees_text(trees: Seq<Tree>, n: nat, depth: nat)
    ensures
        trees_text(trees, n, depth) == joined(forest_lines(trees, n, depth)),
    decreases trees, n,
{
    if n == 0 || n > trees.len() {
    } else {
        lemma_trees_text(trees, (n - 1) as nat, depth);
        lemma_tree_text(trees[n - 1], depth);
        lemma_joined_add(forest_lines(trees, (n - 1) as nat, depth), tree_lines(trees[n - 1], depth));
    }
}

/// The text of a configuration is made of its lines, each followed by a
/// line feed.
pub proof fn lemma_text_is_lines(s: Seq<(Seq<char>, Seq<Tree>)>, n: nat)
    ensures
        sections_text(s, n) == joined(config_lines(s, n)),
    decreases n,
{
    if n == 0 || n > s.len() {
    } else {
        lemma_text_is_lines(s, (n - 1) as nat);
        let section = s[n - 1];
        let opener = seq!["!<"@ + section.0 + ">"@];
        let body = forest_lines(section.1, section.1.len(), 0);
        let closer = seq!["!</"@ + section.0 + ">"@];
        lemma_trees_text(section.1, section.1.len(), 0);
        lemma_joined_one(opener[0]);
        lemma_joined_one(closer[0]);
        lemma_joined_add(opener, body);
        lemma_joined_add(opener + body, closer);
        lemma_joined_add(config_lines(s, (n - 1) as nat), section_lines(section));
        reveal_strlit(">\n");
        reveal_strlit(">");
        reveal_strlit("\n");
        assert(">\n"@ =~= ">"@ + "\n"@);
        assert(section_text(section) =~= joined(opener) + joined(body) + joined(closer));
    }
}

/// No line of `lines` holds a line feed.
pub open spec fn single_lines(lines: Seq<Seq<char>>) -> bool {
    forall|i: int| 0 <= i < lines.len() ==> !has_char(#[trigger] lines[i], '\n')
}

/// The text joined from lines starts with its first line and a line feed.
proof fn lemma_joined_front(lines: Seq<Seq<char>>)
    requires
        lines.len() > 0,
    ensures
        joined(lines) == lines[0] + "\n"@ + joined(lines.drop_first()),
    decreases lines.len(),
{
    if lines.len() == 1 {
        lemma_joined_one(lines[0]);
        assert(lines =~= seq![lines[0]]);
        assert(lines.drop_first() =~= Seq::<Seq<char>>::empty());
        assert(joined(lines) =~= lines[0] + "\n"@ + joined(lines.drop_first()));
    } else {
        lemma_joined_front(lines.drop_last());
        assert(lines.drop_last().drop_first() =~= lines.drop_first().drop_last());
        assert(lines.drop_last()[0] == lines[0]);
        assert(lines.drop_first().last() == lines.last());
        assert(joined(lines) =~= lines[0] + "\n"@ + joined(lines.drop_first()));
    }
}

/// Lines that hold no line feed are the lines of the text joined from them.
pub proof fn lemma_lines_of_joined(lines: Seq<Seq<char>>)
    requires
        single_lines(lines),
    ensures
        lines_of(joined(lines)) == lines,
    decreases lines.len(),
{
    reveal_strlit("\n");
    if lines.len() == 0 {
        assert(lines_of(joined(lines)) =~= lines);
    } else {
        let first = lines[0];
        let rest = lines.drop_first();
        let t = joined(lines);
        lemma_joined_front(lines);
        assert(!has_char(first, '\n'));
        assert forall|i: int| 0 <= i < first.len() implies t[i] != '\n' by {
            assert(t[i] == first[i]);
        }
        assert(t[first.len() as int] == '\n');
        lemma_line_end(t, first.len());
        assert(t.subrange(0, first.len() as int) =~= first);
        assert(t.subrange(first.len() as int + 1, t.len() as int) =~= joined(rest));
        assert forall|i: int| 0 <= i < rest.len() implies !has_char(#[trigger] rest[i], '\n') by {
            assert(rest[i] == lines[i + 1]);
        }
        lemma_lines_of_joined(rest);
        assert(seq![first] + rest =~= lines);
    }
}

/// No line of `t` holds a line feed.
pub open spec fn feedless_tree(t: Tree) -> bool
    decreases t,
{
    &&& !has_char(t.line, '\n')
    &&& match t.kids {
        None => true,
        Some(kids) => forall|i: int| 0 <= i < kids.len() ==> feedless_tree(#[trigger] kids[i]),
    }
}

/// A configuration that can be written as one text and read back: it is
/// plain, and no name and no line of it holds a line feed.
pub open spec fn text_config(s: Seq<(Seq<char>, Seq<Tree>)>) -> bool {
    &&& plain_config(s)
    &&& forall|i: int| 0 <= i < s.len() ==> !has_char(#[trigger] s[i].0, '\n')
    &&& forall|i: int, j: int|
        0 <= i < s.len() && 0 <= j < s[i].1.len() ==> feedless_tree(#[trigger] s[i].1[j])
}

/// Lines without line feeds, put together, are lines without line feeds.
proof fn lemma_single_lines_add(a: Seq<Seq<char>>, b: Seq<Seq<char>>)
    requires
        single_lines(a),
        single_lines(b),
    ensures
        single_lines(a + b),
{
    assert forall|i: int| 0 <= i < (a + b).len() implies !has_char(#[trigger] (a + b)[i], '\n') by {
        if i < a.len() {
            assert((a + b)[i] == a[i]);
        } else {
            assert((a + b)[i] == b[i - a.len()]);
        }
    }
}

/// Three texts without line feeds, put together, hold none.
proof fn lemma_feedless_add(a: Seq<char>, b: Seq<char>, c: Seq<char>)
    requires
        !has_char(a, '\n'),
        !has_char(b, '\n'),
        !has_char(c, '\n'),
    ensures
        !has_char(a + b + c, '\n'),
{
    let t = a + b + c;
    if has_char(t, '\n') {
        let k = choose|k: int| 0 <= k < t.len() && t[k] == '\n';
        if k < a.len() {
            assert(a[k] == '\n');
        } else if k < a.len() + b.len() {
            assert(b[k - a.len()] == '\n');
        } else {
            assert(c[k - a.len() - b.len()] == '\n');
        }
    }
}

/// The lines of a tree without line feeds hold none.
proof fn lemma_tree_single_lines(t: Tree, depth: nat)
    requires
        feedless_tree(t),
    ensures
        single_lines(tree_lines(t, depth)),
    decreases t, 0nat,
{
    lemma_indent(depth);
    reveal_strlit("$");
    let margin = indent(depth);
    assert(!has_char(margin, '\n')) by {
        if has_char(margin, '\n') {
            let k = choose|k: int| 0 <= k < margin.len() && margin[k] == '\n';
            assert(margin[k] == ' ');
        }
    }
    assert(!has_char(Seq::<char>::empty(), '\n'));
    lemma_feedless_add(margin, t.line, Seq::empty());
    assert(margin + t.line + Seq::<char>::empty() =~= margin + t.line);
    let first = seq![margin + t.line];
    assert(single_lines(first));
    match t.kids {
        None => {
            assert(tree_lines(t, depth) =~= first);
        },
        Some(kids) => {
            lemma_forest_single_lines(kids, kids.len(), depth + 1);
            let body = forest_lines(kids, kids.len(), depth + 1);
            let closer = seq!["$"@];
            assert(!has_char("$"@, '\n')) by {
                if has_char("$"@, '\n') {
                    let k = choose|k: int| 0 <= k < "$"@.len() && "$"@[k] == '\n';
                    assert("$"@[k] == '$');
                }
            }
            assert(single_lines(closer));
            lemma_single_lines_add(body, closer);
            lemma_single_lines_add(first, body + closer);
            assert(tree_lines(t, depth) =~= first + (body + closer));
        },
    }
}

/// The lines of trees without line feeds hold none.
proof fn lemma_forest_single_lines(trees: Seq<Tree>, n: nat, depth: nat)
    requires
        forall|j: int| 0 <= j < trees.len() ==> feedless_tree(#[trigger] trees[j]),
    ensures
        single_lines(forest_lines(trees, n, depth)),
    decreases trees, n,
{
    if n == 0 || n > trees.len() {
    } else {
        lemma_forest_single_lines(trees, (n - 1) as nat, depth);
        lemma_tree_single_lines(trees[n - 1], depth);
        lemma_single_lines_add(
            forest_lines(trees, (n - 1) as nat, depth),
            tree_lines(trees[n - 1], depth),
        );
    }
}

/// The lines of a configuration without line feeds hold none.
proof fn lemma_config_single_lines(s: Seq<(Seq<char>, Seq<Tree>)>, n: nat)
    requires
        text_config(s),
    ensures
        single_lines(config_lines(s, n)),
    decreases n,
{
    if n == 0 || n > s.len() {
    } else {
        lemma_config_single_lines(s, (n - 1) as nat);
        let section = s[n - 1];
        reveal_strlit("!<");
        reveal_strlit("!</");
        reveal_strlit(">");
        assert(!has_char("!<"@, '\n')) by {
            if has_char("!<"@, '\n') {
                let k = choose|k: int| 0 <= k < "!<"@.len() && "!<"@[k] == '\n';
            }
        }
        assert(!has_char("!</"@, '\n')) by {
            if has_char("!</"@, '\n') {
                let k = choose|k: int| 0 <= k < "!</"@.len() && "!</"@[k] == '\n';
            }
        }
        assert(!has_char(">"@, '\n')) by {
            if has_char(">"@, '\n') {
                let k = choose|k: int| 0 <= k < ">"@.len() && ">"@[k] == '\n';
            }
        }
        lemma_feedless_add("!<"@, section.0, ">"@);
        lemma_feedless_add("!</"@, section.0, ">"@);
        let opener = seq!["!<"@ + section.0 + ">"@];
        let closer = seq!["!</"@ + section.0 + ">"@];
        let body = forest_lines(section.1, section.1.len(), 0);
        assert forall|j: int| 0 <= j < section.1.len() implies feedless_tree(
            #[trigger] section.1[j],
        ) by {
            assert(feedless_tree(s[n - 1].1[j]));
        }
        lemma_forest_single_lines(section.1, section.1.len(), 0);
        lemma_single_lines_add(opener, body);
        lemma_single_lines_add(opener + body, closer);
        lemma_single_lines_add(config_lines(s, (n - 1) as nat), section_lines(section));
    }
}

/// The text of a configuration is read back as the configuration: for every
/// configuration whose names are distinct and plain, whose lines are plain,
/// whose lists are not empty, and which holds no line feed.
pub proof fn lemma_text_round_trip(s: Seq<(Seq<char>, Seq<Tree>)>)
    requires
        text_config(s),
    ensures
        parse_dump(lines_of(sections_text(s, s.len()))) == s,
{
    lemma_config_single_lines(s, s.len());
    lemma_text_is_lines(s, s.len());
    lemma_lines_of_joined(config_lines(s, s.len()));
    lemma_config_round_trip(s);
}

} // verus!
