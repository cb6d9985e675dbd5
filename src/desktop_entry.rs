//! Reading one descriptor file into an [`Application`].
//!
//! A descriptor is a text of lines. Blank lines and lines whose first non-blank
//! character is `#` say nothing. `[Group]` opens a group; `Key=Value` sets a key
//! of the group that is open. Only the `Desktop Entry` group is read. A key
//! before any group, or a line that is none of these, makes the text malformed.
use vstd::prelude::*;
use crate::application::{Application, ApplicationView, glyph_for, icon_glyph};
use crate::text::{
    chars_of, find_char, find_from, same_text, slice_of, split_on, string_of, trim, trimmed,
};

verus! {

/// Why a descriptor gives no application.
#[derive(Debug, Clone, Copy, PartialEq, Eq, Structural)]
pub enum ParseError {
    /// The text is not descriptor syntax, or has no `Desktop Entry` group.
    Malformed,
    /// The entry is marked `Hidden=true` or `NoDisplay=true`.
    Hidden,
    /// There is no `Name`, or it is empty.
    MissingName,
    /// There is no `Exec`, or it names no program.
    MissingCommand,
}

/// The group that a line belongs to.
#[derive(Debug, Clone, Copy, PartialEq, Eq, Structural)]
pub enum Section {
    Preamble,
    Entry,
    Other,
}

/// What one line says.
pub enum LineKind {
    Nothing,
    Header(Seq<char>),
    Pair(Seq<char>, Seq<char>),
    Bad,
}

pub open spec fn line_kind(line: Seq<char>) -> LineKind {
    let t = trim(line);
    if t.len() == 0 || t[0] == '#' {
        LineKind::Nothing
    } else if t[0] == '[' {
        if t.len() >= 2 && t.last() == ']' {
            LineKind::Header(t.subrange(1, t.len() - 1))
        } else {
            LineKind::Bad
        }
    } else {
        let k = find_from(t, '=', 0);
        if k < t.len() {
            LineKind::Pair(trim(t.take(k)), trim(t.skip(k + 1)))
        } else {
            LineKind::Bad
        }
    }
}

/// What has been read of a descriptor so far.
pub struct ScanView {
    pub section: Section,
    pub seen_entry: bool,
    pub malformed: bool,
    pub name: Option<Seq<char>>,
    pub command: Option<Seq<char>>,
    pub icon: Option<Seq<char>>,
    pub terminal: bool,
    pub hidden: bool,
    pub no_display: bool,
}

pub open spec fn initial_scan() -> ScanView {
    ScanView {
        section: Section::Preamble,
        seen_entry: false,
        malformed: false,
        name: None,
        command: None,
        icon: None,
        terminal: false,
        hidden: false,
        no_display: false,
    }
}

/// The effect of `key=value` inside the `Desktop Entry` group; a later key replaces an earlier one.
pub open spec fn apply_pair(st: ScanView, key: Seq<char>, value: Seq<char>) -> ScanView {
    if key == "Name"@ {
        ScanView { name: Some(value), ..st }
    } else if key == "Exec"@ {
        ScanView { command: Some(value), ..st }
    } else if key == "Icon"@ {
        ScanView { icon: Some(value), ..st }
    } else if key == "Terminal"@ {
        ScanView { terminal: value == "true"@, ..st }
    } else if key == "Hidden"@ {
        ScanView { hidden: value == "true"@, ..st }
    } else if key == "NoDisplay"@ {
        ScanView { no_display: value == "true"@, ..st }
    } else {
        st
    }
}

pub open spec fn scan_step(st: ScanView, line: Seq<char>) -> ScanView {
    match line_kind(line) {
        LineKind::Nothing => st,
        LineKind::Header(h) => if h == "Desktop Entry"@ {
            ScanView { section: Section::Entry, seen_entry: true, ..st }
        } else {
            ScanView { section: Section::Other, ..st }
        },
        LineKind::Pair(k, v) => match st.section {
            Section::Entry => apply_pair(st, k, v),
            Section::Preamble => ScanView { malformed: true, ..st },
            Section::Other => st,
        },
        LineKind::Bad => ScanView { malformed: true, ..st },
    }
}

pub open spec fn scan_lines(lines: Seq<Seq<char>>) -> ScanView
    decreases lines.len(),
{
    if lines.len() == 0 {
        initial_scan()
    } else {
        scan_step(scan_lines(lines.drop_last()), lines.last())
    }
}

/// What the whole text says.
pub open spec fn scan_text(content: Seq<char>) -> ScanView {
    scan_lines(split_on(content, '\n'))
}

/// A field code such as `%f` or `%U`, which stands for files or URLs handed over at launch.
pub open spec fn is_field_code(w: Seq<char>) -> bool {
    w.len() == 2 && w[0] == '%' && (w[1] == 'f' || w[1] == 'F' || w[1] == 'u' || w[1] == 'U'
        || w[1] == 'd' || w[1] == 'D' || w[1] == 'n' || w[1] == 'N' || w[1] == 'i' || w[1] == 'c'
        || w[1] == 'k' || w[1] == 'v' || w[1] == 'm')
}

pub open spec fn kept_word(w: Seq<char>) -> bool {
    w.len() > 0 && !is_field_code(w)
}

pub open spec fn keep_words(ws: Seq<Seq<char>>) -> Seq<Seq<char>>
    decreases ws.len(),
{
    if ws.len() == 0 {
        Seq::empty()
    } else if kept_word(ws.last()) {
        keep_words(ws.drop_last()).push(ws.last())
    } else {
        keep_words(ws.drop_last())
    }
}

/// The words of an `Exec` value, split at spaces, without field codes.
pub open spec fn command_words(s: Seq<char>) -> Seq<Seq<char>> {
    keep_words(split_on(s, ' '))
}

/// The application that a descriptor with base file name `id` and text `content` gives.
pub open spec fn parse_spec(id: Seq<char>, content: Seq<char>) -> Result<ApplicationView, ParseError> {
    let st = scan_text(content);
    if st.malformed || !st.seen_entry {
        Err(ParseError::Malformed)
    } else if st.hidden || st.no_display {
        Err(ParseError::Hidden)
    } else if st.name is None || st.name.unwrap().len() == 0 {
        Err(ParseError::MissingName)
    } else if st.command is None || command_words(st.command.unwrap()).len() == 0 {
        Err(ParseError::MissingCommand)
    } else {
        let words = command_words(st.command.unwrap());
        Ok(
            ApplicationView {
                name: st.name.unwrap(),
                command: words[0],
                args: words.drop_first(),
                icon: glyph_for(st.icon),
                terminal: st.terminal,
                id,
            },
        )
    }
}

pub open spec fn opt_view(o: Option<Vec<char>>) -> Option<Seq<char>> {
    match o {
        Some(v) => Some(v@),
        None => None,
    }
}

struct Scan {
    section: Section,
    seen_entry: bool,
    malformed: bool,
    name: Option<Vec<char>>,
    command: Option<Vec<char>>,
    icon: Option<Vec<char>>,
    terminal: bool,
    hidden: bool,
    no_display: bool,
}

impl Scan {
    spec fn view(&self) -> ScanView {
        ScanView {
            section: self.section,
            seen_entry: self.seen_entry,
            malformed: self.malformed,
            name: opt_view(self.name),
            command: opt_view(self.command),
            icon: opt_view(self.icon),
            terminal: self.terminal,
            hidden: self.hidden,
            no_display: self.no_display,
        }
    }
}

fn apply_pair_exec(st: &mut Scan, key: &Vec<char>, value: Vec<char>)
    ensures
        final(st).view() == apply_pair(old(st).view(), key@, value@),
{
    if same_text(key, "Name") {
        st.name = Some(value);
    } else if same_text(key, "Exec") {
        st.command = Some(value);
    } else if same_text(key, "Icon") {
        st.icon = Some(value);
    } else if same_text(key, "Terminal") {
        st.terminal = same_text(&value, "true");
    } else if same_text(key, "Hidden") {
        st.hidden = same_text(&value, "true");
    } else if same_text(key, "NoDisplay") {
        st.no_display = same_text(&value, "true");
    }
}

fn read_line(st: &mut Scan, line: &Vec<char>)
    ensures
        final(st).view() == scan_step(old(st).view(), line@),
{
    let t = trimmed(line);
    if t.len() == 0 || t[0] == '#' {
        return ;
    }
    if t[0] == '[' {
        if t.len() >= 2 && t[t.len() - 1] == ']' {
            let h = slice_of(&t, 1, t.len() - 1);
            if same_text(&h, "Desktop Entry") {
                st.section = Section::Entry;
                st.seen_entry = true;
            } else {
                st.section = Section::Other;
            }
        } else {
            st.malformed = true;
        }
        return ;
    }
    let k = find_char(&t, '=');
    if k < t.len() {
        match st.section {
            Section::Entry => {
                let key = trimmed(&slice_of(&t, 0, k));
                let value = trimmed(&slice_of(&t, k + 1, t.len()));
                assert(t@.take(k as int) =~= t@.subrange(0, k as int));
                assert(t@.skip(k + 1) =~= t@.subrange(k + 1, t@.len() as int));
                apply_pair_exec(st, &key, value);
            },
            Section::Preamble => {
                st.malformed = true;
            },
            Section::Other => {},
        }
    } else {
        st.malformed = true;
    }
}

fn scan(content: &Vec<char>) -> (r: Scan)
    ensures
        r.view() == scan_text(content@),
{
    let mut st = Scan {
        section: Section::Preamble,
        seen_entry: false,
        malformed: false,
        name: None,
        command: None,
        icon: None,
        terminal: false,
        hidden: false,
        no_display: false,
    };
    let mut cur: Vec<char> = Vec::new();
    let mut i: usize = 0;
    assert(content@.take(0) =~= Seq::<char>::empty());
    assert(scan_lines(Seq::<Seq<char>>::empty()) == initial_scan());
    assert(split_on(Seq::<char>::empty(), '\n').drop_last() =~= Seq::<Seq<char>>::empty());
    while i < content.len()
        invariant
            i <= content@.len(),
            split_on(content@.take(i as int), '\n').len() >= 1,
            st.view() == scan_lines(split_on(content@.take(i as int), '\n').drop_last()),
            cur@ == split_on(content@.take(i as int), '\n').last(),
        decreases content@.len() - i,
    {
        let c = content[i];
        let ghost ls = split_on(content@.take(i as int), '\n');
        let ghost next = content@.take(i + 1);
        assert(next.drop_last() =~= content@.take(i as int));
        assert(next.last() == c);
        if c == '\n' {
            read_line(&mut st, &cur);
            cur = Vec::new();
            assert(split_on(next, '\n') == ls.push(Seq::empty()));
            assert(ls.push(Seq::<char>::empty()).drop_last() =~= ls);
            assert(ls == ls.drop_last().push(ls.last()));
            assert(ls.drop_last().push(ls.last()).drop_last() =~= ls.drop_last());
        } else {
            cur.push(c);
            let ghost up = ls.update(ls.len() - 1, ls.last().push(c));
            assert(split_on(next, '\n') == up);
            assert(up.drop_last() =~= ls.drop_last());
        }
        i = i + 1;
    }
    let ghost ls = split_on(content@.take(i as int), '\n');
    read_line(&mut st, &cur);
    assert(content@.take(i as int) =~= content@);
    assert(ls.drop_last().push(ls.last()) =~= ls);
    st
}

fn is_kept_word(w: &Vec<char>) -> (r: bool)
    ensures
        r == kept_word(w@),
{
    if w.len() == 0 {
        return false;
    }
    if w.len() != 2 || w[0] != '%' {
        return true;
    }
    let c = w[1];
    !(c == 'f' || c == 'F' || c == 'u' || c == 'U' || c == 'd' || c == 'D' || c == 'n' || c == 'N'
        || c == 'i' || c == 'c' || c == 'k' || c == 'v' || c == 'm')
}

proof fn lemma_chars_deep_view(v: Vec<char>)
    ensures
        v.deep_view() == v@,
{
    assert(v.deep_view() =~= v@);
}

fn words_of(s: &Vec<char>) -> (r: Vec<Vec<char>>)
    ensures
        r.deep_view() == command_words(s@),
{
    let mut r: Vec<Vec<char>> = Vec::new();
    let mut cur: Vec<char> = Vec::new();
    let mut i: usize = 0;
    assert(s@.take(0) =~= Seq::<char>::empty());
    assert(split_on(Seq::<char>::empty(), ' ').drop_last() =~= Seq::<Seq<char>>::empty());
    assert(r.deep_view() =~= Seq::<Seq<char>>::empty());
    while i < s.len()
        invariant
            i <= s@.len(),
            split_on(s@.take(i as int), ' ').len() >= 1,
            r.deep_view() == keep_words(split_on(s@.take(i as int), ' ').drop_last()),
            cur@ == split_on(s@.take(i as int), ' ').last(),
        decreases s@.len() - i,
    {
        let c = s[i];
        let ghost ls = split_on(s@.take(i as int), ' ');
        let ghost next = s@.take(i + 1);
        assert(next.drop_last() =~= s@.take(i as int));
        assert(next.last() == c);
        if c == ' ' {
            assert(ls == ls.drop_last().push(ls.last()));
            assert(ls.drop_last().push(ls.last()).drop_last() =~= ls.drop_last());
            if is_kept_word(&cur) {
                let ghost before = r.deep_view();
                proof {
                    lemma_chars_deep_view(cur);
                }
                r.push(cur);
                assert(r.deep_view() =~= before.push(ls.last()));
            }
            cur = Vec::new();
            assert(split_on(next, ' ') == ls.push(Seq::empty()));
            assert(ls.push(Seq::<char>::empty()).drop_last() =~= ls);
        } else {
            cur.push(c);
            let ghost up = ls.update(ls.len() - 1, ls.last().push(c));
            assert(split_on(next, ' ') == up);
            assert(up.drop_last() =~= ls.drop_last());
        }
        i = i + 1;
    }
    let ghost ls = split_on(s@.take(i as int), ' ');
    assert(s@.take(i as int) =~= s@);
    assert(ls == ls.drop_last().push(ls.last()));
    assert(ls.drop_last().push(ls.last()).drop_last() =~= ls.drop_last());
    if is_kept_word(&cur) {
        let ghost before = r.deep_view();
        proof {
            lemma_chars_deep_view(cur);
        }
        r.push(cur);
        assert(r.deep_view() =~= before.push(ls.last()));
    }
    r
}

/// The view of a parse result.
pub open spec fn result_view(r: Result<Application, ParseError>) -> Result<ApplicationView, ParseError> {
    match r {
        Ok(a) => Ok(a@),
        Err(e) => Err(e),
    }
}

/// Reads the descriptor with base file name `id` and text `content`.
pub fn parse_desktop_entry(id: &str, content: &str) -> (r: Result<Application, ParseError>)
    ensures
        result_view(r) == parse_spec(id@, content@),
{
    let text = chars_of(content);
    let st = scan(&text);
    if st.malformed || !st.seen_entry {
        return Err(ParseError::Malformed);
    }
    if st.hidden || st.no_display {
        return Err(ParseError::Hidden);
    }
    let name = match &st.name {
        Some(n) => {
            if n.len() == 0 {
                return Err(ParseError::MissingName);
            }
            string_of(n)
        },
        None => {
            return Err(ParseError::MissingName);
        },
    };
    let words = match &st.command {
        Some(c) => words_of(c),
        None => {
            return Err(ParseError::MissingCommand);
        },
    };
    if words.len() == 0 {
        return Err(ParseError::MissingCommand);
    }
    let command = string_of(&words[0]);
    let mut args: Vec<String> = Vec::new();
    let mut i: usize = 1;
    while i < words.len()
        invariant
            1 <= i <= words@.len(),
            args.deep_view() =~= words.deep_view().subrange(1, i as int),
        decreases words@.len() - i,
    {
        let ghost before = args.deep_view();
        let a = string_of(&words[i]);
        proof {
            lemma_chars_deep_view(words@[i as int]);
        }
        args.push(a);
        assert(args.deep_view() =~= before.push(a@));
        i = i + 1;
        assert(words.deep_view().subrange(1, i as int) =~= words.deep_view().subrange(1, i - 1).push(a@));
    }
    proof {
        lemma_chars_deep_view(words@[0]);
    }
    assert(words.deep_view().drop_first() =~= words.deep_view().subrange(1, words@.len() as int));
    let icon = icon_glyph(&st.icon);
    Ok(Application { name, command, args, icon, terminal: st.terminal, id: String::from_str(id) })
}

/// Line `line` is `key=...`.
pub open spec fn sets_key(line: Seq<char>, key: Seq<char>) -> bool {
    match line_kind(line) {
        LineKind::Pair(k, _) => k == key,
        _ => false,
    }
}

proof fn lemma_terminal_unset(lines: Seq<Seq<char>>)
    requires
        forall|i: int| 0 <= i < lines.len() ==> !sets_key(#[trigger] lines[i], "Terminal"@),
    ensures
        !scan_lines(lines).terminal,
    decreases lines.len(),
{
    if lines.len() > 0 {
        let rest = lines.drop_last();
        assert forall|i: int| 0 <= i < rest.len() implies !sets_key(#[trigger] rest[i], "Terminal"@) by {
            assert(rest[i] == lines[i]);
        }
        lemma_terminal_unset(rest);
        assert(!sets_key(lines[lines.len() - 1], "Terminal"@));
    }
}

/// A descriptor gives an application exactly when its text is well formed, it is not hidden,
/// and it has a non-empty name and a command; the application's terminal flag is what the
/// `Terminal` key says, and false when no line sets that key.
pub proof fn lemma_parse_admission(id: Seq<char>, content: Seq<char>)
    ensures
        parse_spec(id, content) is Ok <==> ({
            let st = scan_text(content);
            &&& !st.malformed
            &&& st.seen_entry
            &&& !st.hidden
            &&& !st.no_display
            &&& st.name is Some && st.name.unwrap().len() > 0
            &&& st.command is Some && command_words(st.command.unwrap()).len() > 0
        }),
        parse_spec(id, content) is Ok ==> parse_spec(id, content).unwrap().terminal == scan_text(content).terminal,
        (forall|i: int| 0 <= i < split_on(content, '\n').len() ==> !sets_key(#[trigger] split_on(content, '\n')[i], "Terminal"@))
            ==> !scan_text(content).terminal,
{
    if forall|i: int| 0 <= i < split_on(content, '\n').len() ==> !sets_key(#[trigger] split_on(content, '\n')[i], "Terminal"@) {
        lemma_terminal_unset(split_on(content, '\n'));
    }
}

} // verus!
