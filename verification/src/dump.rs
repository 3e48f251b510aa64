use crate::command::Command;
use crate::configuration::{
    distinct_names, forest, leaf, lemma_forest_push, lemma_position_from, lemma_view_kids,
    find_section, position, sections, with_child, Config, ConfigField, NestedCommand, Tree,
};
use crate::text::{
    chars_of, contains_char, count_leading_spaces, find_first, find_last, first_occurrence,
    has_char, last_occurrence, leading_spaces, text_of, trim_bounds, trimmed,
};
use vstd::prelude::*;

verus! {

/// What one line of a dump is.
pub enum LineKind {
    /// A line that says nothing.
    Skip,
    /// The line that opens the section of this name.
    Open(Seq<char>),
    /// A line that closes the open section.
    Close,
    /// A command, so many levels deep.
    Entry(nat, Seq<char>),
}

/// What the line `t` is. An empty line says nothing. A line that holds `!<`
/// and, behind it, `>` is a marker: it names what stands between the first
/// `!<` and the last `>`; a name that starts with `/` closes the open
/// section, any other opens the section of that name. Another line that
/// holds `$`, or only white space, says nothing. Any other line is a
/// command: its text without the white space around it, one level deep
/// for every two spaces at its front.
pub open spec fn classify(t: Seq<char>) -> LineKind {
    let n = t.len() as int;
    let marker = match first_occurrence(t, "!<"@, 0, n - 2) {
        Some(a) => match last_occurrence(t, ">"@, a + 2, n - 1) {
            Some(b) => Some((a + 2, b)),
            None => None,
        },
        None => None,
    };
    match marker {
        Some((a, b)) => if a < b && t[a] == '/' {
            LineKind::Close
        } else {
            LineKind::Open(t.subrange(a, b))
        },
        None => if has_char(t, '$') || trimmed(t).len() == 0 {
            LineKind::Skip
        } else {
            LineKind::Entry(leading_spaces(t) / 2, trimmed(t))
        },
    }
}

/// `t` with `child` put `depth` levels below it, each time under the last
/// item of the list; where the lists end before that, under the last command
/// that was reached.
pub open spec fn attach(t: Tree, depth: nat, child: Tree) -> Tree
    decreases depth,
{
    if depth > 0 && t.kids is Some && t.kids->0.len() > 0 {
        let kids = t.kids->0;
        Tree {
            line: t.line,
            kids: Some(kids.drop_last().push(attach(kids.last(), (depth - 1) as nat, child))),
        }
    } else {
        with_child(t, child)
    }
}

/// The list `list` with `child` added `depth` levels deep: as a new last
/// item where `depth` is zero or the list is empty, else below the last item.
pub open spec fn add_entry(list: Seq<Tree>, depth: nat, child: Tree) -> Seq<Tree> {
    if depth == 0 || list.len() == 0 {
        list.push(child)
    } else {
        list.drop_last().push(attach(list.last(), (depth - 1) as nat, child))
    }
}

/// What has been read of a dump: the sections so far, and the index of the
/// section that is open, if one is.
pub struct DumpState {
    pub sections: Seq<(Seq<char>, Seq<Tree>)>,
    pub open: Option<int>,
}

/// The state after one more line. A marker that opens a section empties the
/// section of that name, or adds an empty one as the last; a command goes
/// into the open section; a command outside any section is dropped.
pub open spec fn step(st: DumpState, line: Seq<char>) -> DumpState {
    match classify(line) {
        LineKind::Skip => st,
        LineKind::Close => DumpState { sections: st.sections, open: None },
        LineKind::Open(name) => match position(st.sections, name) {
            Some(i) => DumpState {
                sections: st.sections.update(i, (name, Seq::empty())),
                open: Some(i),
            },
            None => DumpState {
                sections: st.sections.push((name, Seq::empty())),
                open: Some(st.sections.len() as int),
            },
        },
        LineKind::Entry(depth, text) => match st.open {
            Some(i) => if 0 <= i < st.sections.len() {
                DumpState {
                    sections: st.sections.update(
                        i,
                        (st.sections[i].0, add_entry(st.sections[i].1, depth, leaf(text))),
                    ),
                    open: st.open,
                }
            } else {
                st
            },
            None => st,
        },
    }
}

/// The state that `st` becomes by the first `n` lines of `lines`.
pub open spec fn run(st: DumpState, lines: Seq<Seq<char>>, n: nat) -> DumpState
    decreases n,
{
    if n == 0 || n > lines.len() {
        st
    } else {
        step(run(st, lines, (n - 1) as nat), lines[n - 1])
    }
}

/// The state after the first `n` lines of `lines`, read from the start.
pub open spec fn parse_state(lines: Seq<Seq<char>>, n: nat) -> DumpState {
    run(DumpState { sections: Seq::empty(), open: None }, lines, n)
}

/// The texts of a list of lines.
pub open spec fn line_views(lines: Seq<String>) -> Seq<Seq<char>> {
    Seq::new(lines.len(), |i: int| lines[i]@)
}

/// The configuration that the lines of a dump describe.
pub open spec fn parse_dump(lines: Seq<Seq<char>>) -> Seq<(Seq<char>, Seq<Tree>)> {
    parse_state(lines, lines.len()).sections
}

/// One more line keeps the names distinct and the open section in range.
pub proof fn lemma_step_wf(st: DumpState, line: Seq<char>)
    requires
        distinct_names(st.sections),
        st.open is Some ==> 0 <= st.open->0 < st.sections.len(),
    ensures
        distinct_names(step(st, line).sections),
        step(st, line).open is Some ==> 0 <= step(st, line).open->0 < step(st, line).sections.len(),
{
    match classify(line) {
        LineKind::Open(name) => {
            lemma_position_from(st.sections, name, 0);
        },
        _ => {},
    }
}

/// A line of a dump, read.
pub enum Line {
    Skip,
    Open(String),
    Close,
    Entry(usize, String),
}

impl View for Line {
    type V = LineKind;

    open spec fn view(&self) -> LineKind {
        match self {
            Line::Skip => LineKind::Skip,
            Line::Open(name) => LineKind::Open(name@),
            Line::Close => LineKind::Close,
            Line::Entry(depth, text) => LineKind::Entry(*depth as nat, text@),
        }
    }
}

/// Tells what the line `line` is.
pub fn read_line(line: &str) -> (out: Line)
    ensures
        out@ == classify(line@),
{
    proof {
        reveal_strlit("!<");
        reveal_strlit(">");
    }
    let t = chars_of(line);
    let n = t.len();
    let open = chars_of("!<");
    let close = chars_of(">");
    if n >= 2 {
        match find_first(&t, &open, 0, n - 2) {
            Some(a) => {
                match find_last(&t, &close, a + 2, n - 1) {
                    Some(b) => {
                        if a + 2 < b && t[a + 2] == '/' {
                            return Line::Close;
                        }
                        return Line::Open(text_of(&t, a + 2, b, line));
                    },
                    None => {},
                }
            },
            None => {},
        }
    } else {
        assert(first_occurrence(t@, "!<"@, 0, n - 2) is None) by {
            if n == 1 {
                assert(!crate::text::occurs_at(t@, 0, "!<"@));
                assert(first_occurrence(t@, "!<"@, 1, n - 2) is None);
            }
        }
    }
    if contains_char(&t, '$') {
        return Line::Skip;
    }
    let (a, b) = trim_bounds(&t);
    if a == b {
        return Line::Skip;
    }
    Line::Entry(count_leading_spaces(&t) / 2, text_of(&t, a, b, line))
}

/// `node` with `child` put `depth` levels below it.
fn attach_to(node: NestedCommand, depth: usize, child: NestedCommand) -> (out: NestedCommand)
    ensures
        out@ == attach(node@, depth as nat, child@),
    decreases depth,
{
    proof {
        lemma_view_kids(node);
    }
    let NestedCommand { command, nested } = node;
    match nested {
        Some(mut kids) => {
            if depth > 0 && kids.len() > 0 {
                let ghost before = kids@;
                let last = kids.pop().unwrap();
                let below = attach_to(last, depth - 1, child);
                proof {
                    lemma_forest_push(kids@, below);
                    assert(forest(kids@) =~= forest(before).drop_last());
                    assert(forest(before).last() == last@);
                }
                kids.push(below);
                let out = NestedCommand { command, nested: Some(kids) };
                proof {
                    lemma_view_kids(out);
                }
                out
            } else {
                let mut out = NestedCommand { command, nested: Some(kids) };
                proof {
                    lemma_view_kids(out);
                }
                out.nest(child);
                out
            }
        },
        None => {
            let mut out = NestedCommand { command, nested: None };
            proof {
                lemma_view_kids(out);
            }
            out.nest(child);
            out
        },
    }
}

/// Adds `child` to `list`, `depth` levels deep.
fn add_to(list: &mut Vec<NestedCommand>, depth: usize, child: NestedCommand)
    ensures
        forest(final(list)@) == add_entry(forest(old(list)@), depth as nat, child@),
{
    let ghost before = list@;
    if depth == 0 || list.len() == 0 {
        proof {
            lemma_forest_push(list@, child);
        }
        list.push(child);
    } else {
        let last = list.pop().unwrap();
        let below = attach_to(last, depth - 1, child);
        proof {
            lemma_forest_push(list@, below);
            assert(forest(list@) =~= forest(before).drop_last());
            assert(forest(before).last() == last@);
        }
        list.push(below);
    }
}

impl Config {
    /// Reads a dump, line by line: markers open and close sections, and the
    /// commands between them become trees by the spaces at their front.
    pub fn parse(lines: &Vec<String>) -> (out: Config)
        ensures
            out@ == parse_dump(line_views(lines@)),
            out.wf(),
    {
        let mut all: Vec<(ConfigField, Vec<NestedCommand>)> = Vec::new();
        let mut open: Option<usize> = None;
        let mut n: usize = 0;
        let ghost texts = line_views(lines@);
        assert(sections(all@) =~= Seq::empty());
        while n < lines.len()
            invariant
                n <= lines.len(),
                texts == line_views(lines@),
                sections(all@) == parse_state(texts, n as nat).sections,
                match open {
                    Some(i) => parse_state(texts, n as nat).open == Some(i as int) && i
                        < all.len(),
                    None => parse_state(texts, n as nat).open is None,
                },
                distinct_names(sections(all@)),
            decreases lines.len() - n,
        {
            let ghost st = parse_state(texts, n as nat);
            let ghost before = sections(all@);
            proof {
                assert(texts[n as int] == lines@[n as int]@);
                lemma_step_wf(st, texts[n as int]);
            }
            match read_line(lines[n].as_str()) {
                Line::Skip => {},
                Line::Close => {
                    open = None;
                },
                Line::Open(name) => {
                    let field = ConfigField(name);
                    assert(forest(Seq::<NestedCommand>::empty()) =~= Seq::empty());
                    match find_section(&all, &field) {
                        Some(i) => {
                            all.set(i, (field, Vec::new()));
                            open = Some(i);
                            assert(sections(all@) =~= before.update(
                                i as int,
                                (field@, Seq::empty()),
                            ));
                        },
                        None => {
                            open = Some(all.len());
                            all.push((field, Vec::new()));
                            assert(sections(all@) =~= before.push((field@, Seq::empty())));
                        },
                    }
                },
                Line::Entry(depth, text) => {
                    match open {
                        Some(i) => {
                            let (field, mut list) = all.remove(i);
                            add_to(&mut list, depth, NestedCommand::from(Command::from(text)));
                            all.insert(i, (field, list));
                            assert(sections(all@) =~= before.update(
                                i as int,
                                (before[i as int].0, add_entry(before[i as int].1, depth as nat, leaf(text@))),
                            ));
                        },
                        None => {},
                    }
                },
            }
            n = n + 1;
        }
        Config(all)
    }
}

} // verus!
