use crate::command::Command;
use vstd::prelude::*;
use vstd::std_specs::cmp::PartialEqSpecImpl;

verus! {

/// A line with the lines that were issued inside it.
#[derive(Debug, PartialEq, Eq)]
pub struct NestedCommand {
    pub command: Command,
    pub nested: Option<Vec<NestedCommand>>,
}

/// A nested command as a mathematical value: a line, and below it either no
/// list at all or an ordered list of such trees.
pub struct Tree {
    pub line: Seq<char>,
    pub kids: Option<Seq<Tree>>,
}

impl View for NestedCommand {
    type V = Tree;

    open spec fn view(&self) -> Tree
        decreases self, 0nat,
    {
        Tree {
            line: self.command@,
            kids: match self.nested {
                None => None,
                Some(v) => Some(first_trees(v, v@.len())),
            },
        }
    }
}

/// The trees that the first `n` items of `v` stand for.
pub open spec fn first_trees(v: Vec<NestedCommand>, n: nat) -> Seq<Tree>
    decreases v, n,
{
    if n == 0 || n > v@.len() {
        Seq::empty()
    } else {
        first_trees(v, (n - 1) as nat).push(v[n - 1].view())
    }
}

/// The trees that a list of nested commands stands for.
pub open spec fn forest(v: Seq<NestedCommand>) -> Seq<Tree> {
    Seq::new(v.len(), |i: int| v[i]@)
}

/// The first trees of a list are the front of its forest.
proof fn lemma_first_trees(v: Vec<NestedCommand>, n: nat)
    requires
        n <= v@.len(),
    ensures
        first_trees(v, n) == forest(v@).subrange(0, n as int),
    decreases n,
{
    if n == 0 {
        assert(first_trees(v, n) =~= forest(v@).subrange(0, n as int));
    } else {
        lemma_first_trees(v, (n - 1) as nat);
        let a = first_trees(v, n);
        let b = forest(v@).subrange(0, n as int);
        assert(a == first_trees(v, (n - 1) as nat).push(v[n - 1].view()));
        assert(a.len() == n);
        assert(b.len() == n);
        assert(a[n - 1] == v[n - 1].view());
        assert(b[n - 1] == v@[n - 1]@);
        assert forall|i: int| 0 <= i < n implies a[i] == b[i] by {
            if i < n - 1 {
                assert(a[i] == first_trees(v, (n - 1) as nat)[i]);
                assert(b[i] == forest(v@).subrange(0, n - 1)[i]);
            }
        }
        assert(a =~= b);
    }
}

/// The trees of a list that got one more item.
pub proof fn lemma_forest_push(s: Seq<NestedCommand>, x: NestedCommand)
    ensures
        forest(s.push(x)) == forest(s).push(x@),
        forest(s.push(x)).drop_last() == forest(s),
{
    let a = forest(s.push(x));
    let b = forest(s).push(x@);
    assert forall|i: int| 0 <= i < a.len() implies a[i] == b[i] by {
        if i < s.len() {
            assert(s.push(x)[i] == s[i]);
        } else {
            assert(s.push(x)[i] == x);
        }
    }
    assert(a =~= b);
    assert(b.drop_last() =~= forest(s));
}

/// The view of a node that has a list below it is made of the views of the
/// list's items.
pub proof fn lemma_view_kids(n: NestedCommand)
    ensures
        n@.line == n.command@,
        n.nested is None ==> n@.kids is None,
        n.nested is Some ==> n@.kids == Some(forest(n.nested.unwrap()@)),
{
    if n.nested is Some {
        let v = n.nested.unwrap();
        lemma_first_trees(v, v@.len());
        assert(forest(v@).subrange(0, v@.len() as int) =~= forest(v@));
    }
}

impl Clone for NestedCommand {
    fn clone(&self) -> (out: Self)
        ensures
            out@ == self@,
        decreases self,
    {
        let nested = match &self.nested {
            None => None,
            Some(v) => {
                let mut kids: Vec<NestedCommand> = Vec::new();
                let mut i: usize = 0;
                while i < v.len()
                    invariant
                        i <= v.len(),
                        self.nested == Some(*v),
                        forest(kids@) == forest(v@).subrange(0, i as int),
                    decreases v.len() - i,
                {
                    proof {
                        assert(decreases_to!(*self => self.nested));
                        assert(decreases_to!(self.nested => self.nested.unwrap()));
                        assert(decreases_to!(self.nested.unwrap() => self.nested.unwrap()[i as int]));
                        assert(self.nested.unwrap()[i as int] == v@[i as int]);
                    }
                    let kid = v[i].clone();
                    proof {
                        lemma_forest_push(kids@, kid);
                        assert(forest(v@)[i as int] == v@[i as int]@);
                    }
                    kids.push(kid);
                    i = i + 1;
                    assert(forest(kids@) =~= forest(v@).subrange(0, i as int));
                }
                assert(forest(kids@) =~= forest(v@));
                Some(kids)
            },
        };
        let out = NestedCommand { command: self.command.clone(), nested };
        proof {
            lemma_view_kids(out);
            lemma_view_kids(*self);
        }
        out
    }
}

/// `depth` times two spaces.
pub open spec fn indent(depth: nat) -> Seq<char>
    decreases depth,
{
    if depth == 0 {
        Seq::empty()
    } else {
        indent((depth - 1) as nat) + "  "@
    }
}

/// The text of a tree whose root stands `depth` levels deep: the root's line
/// behind two spaces for each level, a line feed, and, where the root has a
/// list below it, the texts of the list's trees one level deeper and a line
/// that holds `$`.
pub open spec fn tree_text(t: Tree, depth: nat) -> Seq<char>
    decreases t, 0nat,
{
    indent(depth) + t.line + "\n"@ + match t.kids {
        None => Seq::empty(),
        Some(kids) => trees_text(kids, kids.len(), depth + 1) + "$\n"@,
    }
}

/// The texts of the first `n` trees of `trees`, one after the other.
pub open spec fn trees_text(trees: Seq<Tree>, n: nat, depth: nat) -> Seq<char>
    decreases trees, n,
{
    if n == 0 || n > trees.len() {
        Seq::empty()
    } else {
        trees_text(trees, (n - 1) as nat, depth) + tree_text(trees[n - 1], depth)
    }
}

/// A tree with nothing below it.
pub open spec fn leaf(line: Seq<char>) -> Tree {
    Tree { line, kids: None }
}

/// `t` with `child` as the last item of the list below it.
pub open spec fn with_child(t: Tree, child: Tree) -> Tree {
    Tree {
        line: t.line,
        kids: Some(
            match t.kids {
                None => seq![child],
                Some(kids) => kids.push(child),
            },
        ),
    }
}

/// Appends the text of `node` to `out`, behind the margin of its depth.
fn write_tree(node: &NestedCommand, margin: &str, Ghost(depth): Ghost<nat>, out: &mut String)
    requires
        margin@ == indent(depth),
    ensures
        final(out)@ == old(out)@ + tree_text(node@, depth),
    decreases node,
{
    proof {
        lemma_view_kids(*node);
    }
    out.append(margin);
    out.append(node.command.as_str());
    out.append("\n");
    match &node.nested {
        None => {
            assert(final(out)@ =~= old(out)@ + tree_text(node@, depth));
        },
        Some(v) => {
            let mut deeper = String::from_str(margin);
            deeper.append("  ");
            let ghost head = out@;
            let ghost kids = forest(v@);
            let mut i: usize = 0;
            while i < v.len()
                invariant
                    i <= v.len(),
                    node.nested == Some(*v),
                    kids == forest(v@),
                    deeper@ == indent(depth + 1),
                    out@ == head + trees_text(kids, i as nat, depth + 1),
                decreases v.len() - i,
            {
                proof {
                    assert(decreases_to!(*node => node.nested));
                    assert(decreases_to!(node.nested => node.nested.unwrap()));
                    assert(decreases_to!(node.nested.unwrap() => node.nested.unwrap()[i as int]));
                    assert(node.nested.unwrap()[i as int] == v@[i as int]);
                    assert(kids[i as int] == v@[i as int]@);
                }
                write_tree(&v[i], deeper.as_str(), Ghost(depth + 1), out);
                i = i + 1;
                assert(out@ =~= head + trees_text(kids, i as nat, depth + 1));
            }
            out.append("$\n");
            assert(final(out)@ =~= old(out)@ + tree_text(node@, depth));
        },
    }
}

impl NestedCommand {
    /// Puts `child` last in the list below this command.
    pub fn nest(&mut self, child: NestedCommand)
        ensures
            final(self)@ == with_child(old(self)@, child@),
    {
        proof {
            lemma_view_kids(*old(self));
        }
        let ghost before = self.nested;
        let mut kids = match self.nested.take() {
            None => Vec::new(),
            Some(kids) => kids,
        };
        proof {
            lemma_forest_push(kids@, child);
            if before is None {
                assert(forest(kids@).push(child@) =~= seq![child@]);
            }
        }
        kids.push(child);
        self.nested = Some(kids);
        proof {
            lemma_view_kids(*self);
        }
    }

    /// The command's own line.
    pub fn as_str(&self) -> (out: &str)
        ensures
            out@ == self@.line,
    {
        proof {
            lemma_view_kids(*self);
        }
        self.command.as_str()
    }

    /// The text of the command and of all that stands below it.
    pub fn raw(&self) -> (out: String)
        ensures
            out@ == tree_text(self@, 0),
    {
        let mut out = String::new();
        proof {
            reveal_strlit("");
            assert(""@ =~= indent(0));
        }
        write_tree(self, "", Ghost(0), &mut out);
        assert(out@ =~= tree_text(self@, 0));
        out
    }

    /// The first of the commands below this one, if there is one.
    pub fn first_nested(&self) -> (out: Option<NestedCommand>)
        ensures
            match out {
                Some(first) => self@.kids is Some && self@.kids->0.len() > 0 && first@
                    == self@.kids->0[0],
                None => self@.kids is None || self@.kids->0.len() == 0,
            },
    {
        proof {
            lemma_view_kids(*self);
        }
        match &self.nested {
            Some(kids) => if kids.len() > 0 {
                assert(forest(kids@)[0] == kids@[0]@);
                Some(kids[0].clone())
            } else {
                None
            },
            None => None,
        }
    }
}

impl From<Command> for NestedCommand {
    fn from(value: Command) -> (out: NestedCommand)
        ensures
            out@ == leaf(value@),
    {
        NestedCommand { command: value, nested: None }
    }
}

impl vstd::std_specs::convert::FromSpecImpl<Command> for NestedCommand {
    open spec fn obeys_from_spec() -> bool {
        true
    }

    open spec fn from_spec(v: Command) -> NestedCommand {
        NestedCommand { command: v, nested: None }
    }
}

/// The name of a section of a configuration.
#[derive(Debug)]
pub struct ConfigField(pub String);

impl View for ConfigField {
    type V = Seq<char>;

    open spec fn view(&self) -> Seq<char> {
        self.0@
    }
}

impl ConfigField {
    /// The name as a text.
    pub fn as_str(&self) -> (out: &str)
        ensures
            out@ == self@,
    {
        self.0.as_str()
    }
}

impl Clone for ConfigField {
    fn clone(&self) -> (out: Self)
        ensures
            out@ == self@,
    {
        ConfigField(self.0.clone())
    }
}

impl PartialEq for ConfigField {
    fn eq(&self, other: &ConfigField) -> (out: bool) {
        self.0 == other.0
    }
}

impl PartialEqSpecImpl for ConfigField {
    open spec fn obeys_eq_spec() -> bool {
        true
    }

    open spec fn eq_spec(&self, other: &ConfigField) -> bool {
        self@ == other@
    }
}

impl Default for ConfigField {
    fn default() -> (out: Self)
        ensures
            out@ == "raw"@,
    {
        ConfigField(String::from_str("raw"))
    }
}

impl From<&str> for ConfigField {
    fn from(value: &str) -> (out: ConfigField)
        ensures
            out@ == value@,
    {
        ConfigField(String::from_str(value))
    }
}

impl vstd::std_specs::convert::FromSpecImpl<&str> for ConfigField {
    open spec fn obeys_from_spec() -> bool {
        false
    }

    open spec fn from_spec(v: &str) -> ConfigField {
        arbitrary()
    }
}

/// A configuration: named sections, each with the commands issued in it,
/// in the order in which they were issued. No two sections of a well-formed
/// configuration have the same name.
#[derive(Debug)]
pub struct Config(pub Vec<(ConfigField, Vec<NestedCommand>)>);

/// The sections that a list of named command lists stands for.
pub open spec fn sections(v: Seq<(ConfigField, Vec<NestedCommand>)>) -> Seq<
    (Seq<char>, Seq<Tree>),
> {
    Seq::new(v.len(), |i: int| (v[i].0@, forest(v[i].1@)))
}

impl View for Config {
    type V = Seq<(Seq<char>, Seq<Tree>)>;

    open spec fn view(&self) -> Seq<(Seq<char>, Seq<Tree>)> {
        sections(self.0@)
    }
}

/// No two sections have the same name.
pub open spec fn distinct_names(s: Seq<(Seq<char>, Seq<Tree>)>) -> bool {
    forall|i: int, j: int| 0 <= i < j < s.len() ==> s[i].0 != s[j].0
}

/// The index of the first section from `from` on that is named `name`.
pub open spec fn position_from(s: Seq<(Seq<char>, Seq<Tree>)>, name: Seq<char>, from: int) -> Option<
    int,
>
    decreases s.len() - from,
{
    if from < 0 || from >= s.len() {
        None
    } else if s[from].0 == name {
        Some(from)
    } else {
        position_from(s, name, from + 1)
    }
}

/// The index of the first section named `name`.
pub open spec fn position(s: Seq<(Seq<char>, Seq<Tree>)>, name: Seq<char>) -> Option<int> {
    position_from(s, name, 0)
}

/// `s` with `trees` added at the end of the section `name`, which is made, as
/// the last one, where `s` has none of that name.
pub open spec fn appended(s: Seq<(Seq<char>, Seq<Tree>)>, name: Seq<char>, trees: Seq<Tree>) -> Seq<
    (Seq<char>, Seq<Tree>),
> {
    match position(s, name) {
        Some(i) => s.update(i, (name, s[i].1 + trees)),
        None => s.push((name, trees)),
    }
}

/// `a` with the first `n` sections of `b` added, one after the other.
pub open spec fn merged(a: Seq<(Seq<char>, Seq<Tree>)>, b: Seq<(Seq<char>, Seq<Tree>)>, n: nat) -> Seq<
    (Seq<char>, Seq<Tree>),
>
    decreases n,
{
    if n == 0 || n > b.len() {
        a
    } else {
        appended(merged(a, b, (n - 1) as nat), b[n - 1].0, b[n - 1].1)
    }
}

/// The text of one section: its opening line, its trees, its closing line.
pub open spec fn section_text(section: (Seq<char>, Seq<Tree>)) -> Seq<char> {
    "!<"@ + section.0 + ">\n"@ + trees_text(section.1, section.1.len(), 0) + "!</"@ + section.0
        + ">\n"@
}

/// The texts of the first `n` sections of `s`, one after the other.
pub open spec fn sections_text(s: Seq<(Seq<char>, Seq<Tree>)>, n: nat) -> Seq<char>
    decreases n,
{
    if n == 0 || n > s.len() {
        Seq::empty()
    } else {
        sections_text(s, (n - 1) as nat) + section_text(s[n - 1])
    }
}

/// What `position_from` finds is a section of that name, and none stands
/// between `from` and it; where it finds none, there is none from `from` on.
pub proof fn lemma_position_from(s: Seq<(Seq<char>, Seq<Tree>)>, name: Seq<char>, from: int)
    requires
        0 <= from,
    ensures
        match position_from(s, name, from) {
            Some(i) => from <= i < s.len() && s[i].0 == name && forall|j: int|
                from <= j < i ==> s[j].0 != name,
            None => forall|j: int| from <= j < s.len() ==> s[j].0 != name,
        },
    decreases s.len() - from,
{
    if from < s.len() && s[from].0 != name {
        lemma_position_from(s, name, from + 1);
    }
}

/// Adding to a section keeps the names distinct.
pub proof fn lemma_put_distinct(s: Seq<(Seq<char>, Seq<Tree>)>, name: Seq<char>, trees: Seq<Tree>)
    requires
        distinct_names(s),
    ensures
        distinct_names(appended(s, name, trees)),
{
    lemma_position_from(s, name, 0);
}

/// Merging keeps the names distinct.
pub proof fn lemma_merged_distinct(
    a: Seq<(Seq<char>, Seq<Tree>)>,
    b: Seq<(Seq<char>, Seq<Tree>)>,
    n: nat,
)
    requires
        distinct_names(a),
    ensures
        distinct_names(merged(a, b, n)),
    decreases n,
{
    if n == 0 || n > b.len() {
    } else {
        lemma_merged_distinct(a, b, (n - 1) as nat);
        lemma_put_distinct(merged(a, b, (n - 1) as nat), b[n - 1].0, b[n - 1].1);
    }
}

/// The trees of two lists, one after the other.
pub proof fn lemma_forest_add(a: Seq<NestedCommand>, b: Seq<NestedCommand>)
    ensures
        forest(a + b) == forest(a) + forest(b),
{
    assert forall|i: int| 0 <= i < a.len() + b.len() implies forest(a + b)[i] == (forest(a)
        + forest(b))[i] by {
        if i < a.len() {
            assert((a + b)[i] == a[i]);
        } else {
            assert((a + b)[i] == b[i - a.len()]);
        }
    }
    assert(forest(a + b) =~= forest(a) + forest(b));
}

/// Puts `item` at the end of `list`.
pub fn push_tree(list: &mut Vec<NestedCommand>, item: NestedCommand)
    ensures
        forest(final(list)@) == forest(old(list)@).push(item@),
        final(list)@ == old(list)@.push(item),
{
    proof {
        lemma_forest_push(list@, item);
    }
    list.push(item);
}

impl Default for Config {
    fn default() -> (out: Self)
        ensures
            out@ == Seq::<(Seq<char>, Seq<Tree>)>::empty(),
            out.wf(),
    {
        let out = Config(Vec::new());
        assert(out@ =~= Seq::<(Seq<char>, Seq<Tree>)>::empty());
        out
    }
}

/// The index of the first section of `v` named `name`.
pub fn find_section(v: &Vec<(ConfigField, Vec<NestedCommand>)>, name: &ConfigField) -> (out: Option<
    usize,
>)
    ensures
        match out {
            Some(i) => position(sections(v@), name@) == Some(i as int) && i < v.len(),
            None => position(sections(v@), name@) is None,
        },
{
    let ghost s = sections(v@);
    let mut i: usize = 0;
    while i < v.len()
        invariant
            i <= v.len(),
            s == sections(v@),
            position(s, name@) == position_from(s, name@, i as int),
        decreases v.len() - i,
    {
        assert(s[i as int].0 == v@[i as int].0@);
        if v[i].0.0 == name.0 {
            return Some(i);
        }
        i = i + 1;
    }
    None
}

/// Adds `commands` at the end of the section `name` of `v`.
pub fn append_section(
    v: &mut Vec<(ConfigField, Vec<NestedCommand>)>,
    name: ConfigField,
    commands: Vec<NestedCommand>,
)
    ensures
        sections(final(v)@) == appended(sections(old(v)@), name@, forest(commands@)),
{
    let ghost before = sections(v@);
    match find_section(v, &name) {
        Some(i) => {
            let (field, mut list) = v.remove(i);
            let ghost head = list@;
            let mut tail = commands;
            list.append(&mut tail);
            proof {
                lemma_forest_add(head, commands@);
                assert(before[i as int] == (field@, forest(head)));
            }
            v.insert(i, (name, list));
            assert(sections(v@) =~= before.update(i as int, (name@, before[i as int].1 + forest(commands@))));
        },
        None => {
            v.push((name, commands));
            assert(sections(v@) =~= before.push((name@, forest(commands@))));
        },
    }
}

impl Config {
    /// No two sections have the same name.
    pub open spec fn wf(&self) -> bool {
        distinct_names(self@)
    }

    /// The commands of the section `field`, if there is one.
    pub fn get(&self, field: &ConfigField) -> (out: Option<&Vec<NestedCommand>>)
        ensures
            match out {
                Some(list) => position(self@, field@) is Some && forest(list@) == self@[position(
                    self@,
                    field@,
                )->0].1,
                None => position(self@, field@) is None,
            },
    {
        match find_section(&self.0, field) {
            Some(i) => Some(&self.0[i].1),
            None => None,
        }
    }

    /// Adds the sections of `rhs`, in their order: the commands of a section
    /// that this configuration has too go to the end of that section, any
    /// other section is added as the last one.
    pub fn merge(&mut self, rhs: Config)
        ensures
            final(self)@ == merged(old(self)@, rhs@, rhs@.len()),
            old(self).wf() ==> final(self).wf(),
    {
        let ghost start = self@;
        let ghost other = rhs@;
        let mut rest = rhs.0;
        let ghost total = rest@.len();
        let ghost mut n: nat = 0;
        while rest.len() > 0
            invariant
                n + rest@.len() == total,
                total == other.len(),
                self@ == merged(start, other, n),
                forall|k: int|
                    0 <= k < rest@.len() ==> (#[trigger] rest@[k]).0@ == other[n + k].0 && forest(
                        rest@[k].1@,
                    ) == other[n + k].1,
            decreases rest.len(),
        {
            let (name, commands) = rest.remove(0);
            append_section(&mut self.0, name, commands);
            proof {
                n = n + 1;
            }
        }
        proof {
            if distinct_names(start) {
                lemma_merged_distinct(start, other, other.len());
            }
        }
    }

    /// The text of the configuration: its sections one after the other.
    pub fn render(&self) -> (out: String)
        ensures
            out@ == sections_text(self@, self@.len()),
    {
        let mut out = String::new();
        let mut i: usize = 0;
        while i < self.0.len()
            invariant
                i <= self.0.len(),
                out@ == sections_text(self@, i as nat),
            decreases self.0.len() - i,
        {
            let ghost head = out@;
            out.append("!<");
            out.append(self.0[i].0.as_str());
            out.append(">\n");
            let list = &self.0[i].1;
            let ghost trees = forest(list@);
            assert(self@[i as int] == (self.0[i as int].0@, trees));
            let ghost body = out@;
            let mut j: usize = 0;
            proof {
                reveal_strlit("");
                assert(""@ =~= indent(0));
            }
            while j < list.len()
                invariant
                    j <= list.len(),
                    trees == forest(list@),
                    ""@ == indent(0),
                    out@ == body + trees_text(trees, j as nat, 0),
                decreases list.len() - j,
            {
                assert(trees[j as int] == list@[j as int]@);
                write_tree(&list[j], "", Ghost(0), &mut out);
                j = j + 1;
                assert(out@ =~= body + trees_text(trees, j as nat, 0));
            }
            out.append("!</");
            out.append(self.0[i].0.as_str());
            out.append(">\n");
            i = i + 1;
            assert(out@ =~= head + section_text(self@[i - 1]));
        }
        out
    }
}

impl core::ops::AddAssign for Config {
    /// `+=` is `merge`.
    fn add_assign(&mut self, rhs: Config)
        ensures
            final(self)@ == merged(old(self)@, rhs@, rhs@.len()),
            old(self).wf() ==> final(self).wf(),
    {
        self.merge(rhs);
    }
}

impl From<Vec<Command>> for Config {
    /// A flat script: one section, named `raw`, with one command for each line.
    fn from(value: Vec<Command>) -> (out: Config)
        ensures
            out@.len() == 1,
            out@[0].0 == "raw"@,
            out@[0].1 == Seq::new(value@.len(), |i: int| leaf(value@[i]@)),
            out.wf(),
    {
        let mut list: Vec<NestedCommand> = Vec::new();
        let mut i: usize = 0;
        while i < value.len()
            invariant
                i <= value.len(),
                forest(list@) == Seq::new(i as nat, |k: int| leaf(value@[k]@)),
            decreases value.len() - i,
        {
            let item = NestedCommand::from(value[i].clone());
            proof {
                lemma_forest_push(list@, item);
            }
            list.push(item);
            i = i + 1;
            assert(forest(list@) =~= Seq::new(i as nat, |k: int| leaf(value@[k]@)));
        }
        let mut all: Vec<(ConfigField, Vec<NestedCommand>)> = Vec::new();
        all.push((ConfigField::default(), list));
        let out = Config(all);
        assert(out@[0] == (out.0@[0].0@, forest(out.0@[0].1@)));
        out
    }
}

impl vstd::std_specs::convert::FromSpecImpl<Vec<Command>> for Config {
    open spec fn obeys_from_spec() -> bool {
        false
    }

    open spec fn from_spec(v: Vec<Command>) -> Config {
        arbitrary()
    }
}

/// What is known of one unit to provision: its serial number, the
/// credentials of its connection and its hardware model.
#[derive(Debug)]
pub struct ConfigInfo {
    pub sn: String,
    pub pppoe_user: String,
    pub pppoe_password: String,
    pub model: String,
}

} // verus!
