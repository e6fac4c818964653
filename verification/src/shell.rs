//! The shell's command line: trimming it, splitting it on spaces, and
//! deciding what a line asks for.
use vstd::prelude::*;
use vstd::string::StringExecFns;

verus! {

/// The characters that Unicode calls white space.
pub open spec fn is_ws(c: char) -> bool {
    ||| c == '\t' || c == '\n' || c == '\x0B' || c == '\x0C' || c == '\r' || c == ' '
    ||| c == '\u{85}' || c == '\u{A0}' || c == '\u{1680}'
    ||| ('\u{2000}' <= c && c <= '\u{200A}')
    ||| c == '\u{2028}' || c == '\u{2029}' || c == '\u{202F}' || c == '\u{205F}' || c == '\u{3000}'
}

/// Whether `c` is white space.
pub fn is_whitespace(c: char) -> (b: bool)
    ensures
        b == is_ws(c),
{
    c == '\t' || c == '\n' || c == '\x0B' || c == '\x0C' || c == '\r' || c == ' ' || c == '\u{85}'
        || c == '\u{A0}' || c == '\u{1680}' || ('\u{2000}' <= c && c <= '\u{200A}') || c
        == '\u{2028}' || c == '\u{2029}' || c == '\u{202F}' || c == '\u{205F}' || c == '\u{3000}'
}

/// `s` without its leading white space.
pub open spec fn trim_start(s: Seq<char>) -> Seq<char>
    decreases s.len(),
{
    if s.len() > 0 && is_ws(s[0]) {
        trim_start(s.drop_first())
    } else {
        s
    }
}

/// `s` without its trailing white space.
pub open spec fn trim_end(s: Seq<char>) -> Seq<char>
    decreases s.len(),
{
    if s.len() > 0 && is_ws(s.last()) {
        trim_end(s.drop_last())
    } else {
        s
    }
}

/// `s` without its leading and trailing white space.
pub open spec fn trim_spec(s: Seq<char>) -> Seq<char> {
    trim_end(trim_start(s))
}

/// Trims a line (see `trim_spec`).
pub fn trim(s: &str) -> (r: &str)
    ensures
        r@ == trim_spec(s@),
{
    let n = s.unicode_len();
    let mut a: usize = 0;
    assert(s@.skip(0) =~= s@);
    while a < n && is_whitespace(s.get_char(a))
        invariant
            n == s@.len(),
            a <= n,
            trim_start(s@) == trim_start(s@.skip(a as int)),
        decreases n - a,
    {
        assert(s@.skip(a as int).drop_first() =~= s@.skip(a + 1));
        a = a + 1;
    }
    let mut b: usize = n;
    assert(s@.skip(a as int) =~= s@.subrange(a as int, n as int));
    while b > a && is_whitespace(s.get_char(b - 1))
        invariant
            n == s@.len(),
            a <= b <= n,
            trim_start(s@) == s@.skip(a as int),
            trim_spec(s@) == trim_end(s@.subrange(a as int, b as int)),
        decreases b - a,
    {
        assert(s@.subrange(a as int, b as int).drop_last() =~= s@.subrange(a as int, b - 1));
        b = b - 1;
    }
    s.substring_char(a, b)
}

/// The fields of `s` after the partial field `cur`, split at every space;
/// two spaces in a row make an empty field.
pub open spec fn fields_from(s: Seq<char>, cur: Seq<char>) -> Seq<Seq<char>>
    decreases s.len(),
{
    if s.len() == 0 {
        seq![cur]
    } else if s[0] == ' ' {
        seq![cur] + fields_from(s.drop_first(), Seq::empty())
    } else {
        fields_from(s.drop_first(), cur.push(s[0]))
    }
}

/// The fields of `s`, split at every space.
pub open spec fn fields(s: Seq<char>) -> Seq<Seq<char>> {
    fields_from(s, Seq::empty())
}

pub open spec fn strs_view(v: Seq<&str>) -> Seq<Seq<char>> {
    v.map_values(|x: &str| x@)
}

/// Splits `s` at every space (see `fields`).
pub fn split_spaces<'a>(s: &'a str) -> (v: Vec<&'a str>)
    ensures
        strs_view(v@) == fields(s@),
{
    let n = s.unicode_len();
    let mut v: Vec<&'a str> = Vec::new();
    let mut start: usize = 0;
    let mut i: usize = 0;
    assert(s@.skip(0) =~= s@);
    assert(s@.subrange(0, 0) =~= Seq::<char>::empty());
    assert(strs_view(v@) + fields(s@) =~= fields(s@));
    while i < n
        invariant
            n == s@.len(),
            start <= i <= n,
            strs_view(v@) + fields_from(s@.skip(i as int), s@.subrange(start as int, i as int))
                == fields(s@),
        decreases n - i,
    {
        let c = s.get_char(i);
        let ghost cur = s@.subrange(start as int, i as int);
        let ghost before = strs_view(v@);
        assert(s@.skip(i as int)[0] == c);
        assert(s@.skip(i as int).drop_first() =~= s@.skip(i + 1));
        if c == ' ' {
            let piece = s.substring_char(start, i);
            v.push(piece);
            assert(strs_view(v@) =~= before.push(cur));
            assert(before + (seq![cur] + fields_from(s@.skip(i + 1), Seq::empty())) =~= before.push(
                cur,
            ) + fields_from(s@.skip(i + 1), Seq::empty()));
            start = i + 1;
            i = i + 1;
            assert(s@.subrange(start as int, i as int) =~= Seq::<char>::empty());
        } else {
            assert(s@.subrange(start as int, i + 1) =~= cur.push(c));
            i = i + 1;
        }
    }
    let ghost cur = s@.subrange(start as int, n as int);
    let ghost before = strs_view(v@);
    assert(s@.skip(n as int) =~= Seq::<char>::empty());
    let piece = s.substring_char(start, n);
    v.push(piece);
    assert(strs_view(v@) =~= before.push(cur));
    assert(before + seq![cur] =~= before.push(cur));
    v
}

/// What a line asks the shell for.
#[derive(Clone, Debug, PartialEq, Eq)]
pub enum ShellAction {
    /// Nothing: the line is blank.
    Empty,
    Exit,
    ListApps,
    Stat,
    Clear,
    Help,
    /// Start the program of this name and wait for it.
    Spawn(String),
    /// `run` without a program: show how to use it.
    RunHelp,
    /// List this directory.
    List(String),
    /// Show this file.
    Cat(String),
    /// `cat` without a file: show how to use it, then run the line as a
    /// program path.
    CatHelpThenRun(String),
    /// Change to this directory.
    ChangeDir(String),
    /// Run the program file at this path and wait for it.
    RunFile(String),
}

/// A shell action with its strings as character sequences.
pub enum ActionView {
    Empty,
    Exit,
    ListApps,
    Stat,
    Clear,
    Help,
    Spawn(Seq<char>),
    RunHelp,
    List(Seq<char>),
    Cat(Seq<char>),
    CatHelpThenRun(Seq<char>),
    ChangeDir(Seq<char>),
    RunFile(Seq<char>),
}

impl View for ShellAction {
    type V = ActionView;

    open spec fn view(&self) -> ActionView {
        match self {
            ShellAction::Empty => ActionView::Empty,
            ShellAction::Exit => ActionView::Exit,
            ShellAction::ListApps => ActionView::ListApps,
            ShellAction::Stat => ActionView::Stat,
            ShellAction::Clear => ActionView::Clear,
            ShellAction::Help => ActionView::Help,
            ShellAction::Spawn(s) => ActionView::Spawn(s@),
            ShellAction::RunHelp => ActionView::RunHelp,
            ShellAction::List(s) => ActionView::List(s@),
            ShellAction::Cat(s) => ActionView::Cat(s@),
            ShellAction::CatHelpThenRun(s) => ActionView::CatHelpThenRun(s@),
            ShellAction::ChangeDir(s) => ActionView::ChangeDir(s@),
            ShellAction::RunFile(s) => ActionView::RunFile(s@),
        }
    }
}

/// The first non-empty field from index `i` on, if any.
pub open spec fn first_nonempty(v: Seq<Seq<char>>, i: int) -> Option<Seq<char>>
    decreases v.len() - i,
{
    if i >= v.len() || i < 0 {
        None
    } else if v[i].len() != 0 {
        Some(v[i])
    } else {
        first_nonempty(v, i + 1)
    }
}

/// What the line `line` asks for when the current directory is `cur`: the
/// trimmed line names a built-in command, or its first field (split at
/// every space) names `run`, `ls`, `cat` or `cd`, or the line is a program
/// path.
pub open spec fn action_spec(line: Seq<char>, cur: Seq<char>) -> ActionView {
    let t = trim_spec(line);
    let v = fields(t);
    if t == "exit"@ {
        ActionView::Exit
    } else if t == "app"@ {
        ActionView::ListApps
    } else if t == "ps"@ {
        ActionView::Stat
    } else if t == "clear"@ {
        ActionView::Clear
    } else if t == "help"@ {
        ActionView::Help
    } else if v[0] == "run"@ {
        match first_nonempty(v, 1) {
            Some(a) => ActionView::Spawn(a),
            None => ActionView::RunHelp,
        }
    } else if v[0] == "ls"@ {
        ActionView::List(if v.len() == 1 { cur } else { v[1] })
    } else if v[0] == "cat"@ {
        if v.len() == 1 {
            ActionView::CatHelpThenRun(t)
        } else {
            ActionView::Cat(v[1])
        }
    } else if v[0] == "cd"@ {
        ActionView::ChangeDir(if v.len() == 1 { "/"@ } else { v[1] })
    } else if t.len() == 0 {
        ActionView::Empty
    } else {
        ActionView::RunFile(t)
    }
}

/// Whether two strings hold the same characters.
pub fn str_eq(a: &str, b: &str) -> (r: bool)
    ensures
        r == (a@ == b@),
{
    let n = a.unicode_len();
    if n != b.unicode_len() {
        return false;
    }
    let mut i: usize = 0;
    while i < n
        invariant
            n == a@.len(),
            n == b@.len(),
            i <= n,
            forall|j: int| 0 <= j < i ==> a@[j] == b@[j],
        decreases n - i,
    {
        if a.get_char(i) != b.get_char(i) {
            return false;
        }
        i = i + 1;
    }
    assert(a@ =~= b@);
    true
}

/// Decides what a typed line asks for (see `action_spec`).
pub fn parse_line(line: &str, cur_dir: &str) -> (r: ShellAction)
    ensures
        r@ == action_spec(line@, cur_dir@),
{
    let t = trim(line);
    let v = split_spaces(t);
    assert(strs_view(v@).len() == v@.len());
    proof {
        lemma_fields_nonempty(t@, Seq::empty());
    }
    if str_eq(t, "exit") {
        return ShellAction::Exit;
    } else if str_eq(t, "app") {
        return ShellAction::ListApps;
    } else if str_eq(t, "ps") {
        return ShellAction::Stat;
    } else if str_eq(t, "clear") {
        return ShellAction::Clear;
    } else if str_eq(t, "help") {
        return ShellAction::Help;
    }
    assert(strs_view(v@)[0] == v@[0]@);
    if str_eq(v[0], "run") {
        let ghost want = match first_nonempty(fields(t@), 1) {
            Some(a) => ActionView::Spawn(a),
            None => ActionView::RunHelp,
        };
        assert(action_spec(line@, cur_dir@) == want);
        let mut i: usize = 1;
        while i < v.len()
            invariant
                action_spec(line@, cur_dir@) == want,
                want == (match first_nonempty(fields(t@), 1) {
                    Some(a) => ActionView::Spawn(a),
                    None => ActionView::RunHelp,
                }),
                1 <= i <= v@.len(),
                strs_view(v@) == fields(t@),
                first_nonempty(fields(t@), 1) == first_nonempty(fields(t@), i as int),
            decreases v@.len() - i,
        {
            assert(strs_view(v@)[i as int] == v@[i as int]@);
            if v[i].unicode_len() != 0 {
                assert(first_nonempty(fields(t@), i as int) == Some(v@[i as int]@));
                return ShellAction::Spawn(v[i].to_owned());
            }
            i = i + 1;
        }
        return ShellAction::RunHelp;
    }
    if str_eq(v[0], "ls") {
        if v.len() == 1 {
            return ShellAction::List(cur_dir.to_owned());
        }
        assert(strs_view(v@)[1] == v@[1]@);
        return ShellAction::List(v[1].to_owned());
    }
    if str_eq(v[0], "cat") {
        if v.len() == 1 {
            return ShellAction::CatHelpThenRun(t.to_owned());
        }
        assert(strs_view(v@)[1] == v@[1]@);
        return ShellAction::Cat(v[1].to_owned());
    }
    if str_eq(v[0], "cd") {
        if v.len() == 1 {
            return ShellAction::ChangeDir("/".to_owned());
        }
        assert(strs_view(v@)[1] == v@[1]@);
        return ShellAction::ChangeDir(v[1].to_owned());
    }
    if t.unicode_len() == 0 {
        ShellAction::Empty
    } else {
        ShellAction::RunFile(t.to_owned())
    }
}

proof fn lemma_fields_nonempty(s: Seq<char>, cur: Seq<char>)
    ensures
        fields_from(s, cur).len() >= 1,
    decreases s.len(),
{
    if s.len() > 0 {
        if s[0] == ' ' {
            lemma_fields_nonempty(s.drop_first(), Seq::empty());
        } else {
            lemma_fields_nonempty(s.drop_first(), cur.push(s[0]));
        }
    }
}

} // verus!
