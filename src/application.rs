//! The record kept for each launchable program.
use vstd::prelude::*;
use crate::text::same_text;

verus! {

/// A program found in a descriptor file.
#[derive(Debug, Clone)]
pub struct Application {
    /// Name shown in the list.
    pub name: String,
    /// Program to run.
    pub command: String,
    /// Arguments handed to the program after its own name.
    pub args: Vec<String>,
    /// Glyph shown before the name.
    pub icon: String,
    /// Whether the program needs the terminal it is started from.
    pub terminal: bool,
    /// Base file name of the descriptor; the key by which entries are told apart.
    pub id: String,
}

/// What an [`Application`] holds, as mathematical values.
pub struct ApplicationView {
    pub name: Seq<char>,
    pub command: Seq<char>,
    pub args: Seq<Seq<char>>,
    pub icon: Seq<char>,
    pub terminal: bool,
    pub id: Seq<char>,
}

impl View for Application {
    type V = ApplicationView;

    open spec fn view(&self) -> ApplicationView {
        ApplicationView {
            name: self.name@,
            command: self.command@,
            args: self.args.deep_view(),
            icon: self.icon@,
            terminal: self.terminal,
            id: self.id@,
        }
    }
}

/// The views of a sequence of applications.
pub open spec fn views(s: Seq<Application>) -> Seq<ApplicationView> {
    s.map_values(|a: Application| a@)
}

/// A copy of each string of `v`.
pub fn copy_strings(v: &Vec<String>) -> (r: Vec<String>)
    ensures
        r.deep_view() == v.deep_view(),
{
    let mut r: Vec<String> = Vec::new();
    let mut i: usize = 0;
    while i < v.len()
        invariant
            i <= v@.len(),
            r.deep_view() =~= v.deep_view().take(i as int),
        decreases v@.len() - i,
    {
        let ghost before = r.deep_view();
        let x = v[i].clone();
        assert(x@ == v.deep_view()[i as int]);
        r.push(x);
        assert(r.deep_view() =~= before.push(x@));
        i = i + 1;
        assert(v.deep_view().take(i as int) =~= v.deep_view().take(i - 1).push(x@));
    }
    assert(v.deep_view().take(v@.len() as int) =~= v.deep_view());
    r
}

impl Application {
    /// A field-by-field copy.
    pub fn duplicate(&self) -> (r: Application)
        ensures
            r@ == self@,
    {
        Application {
            name: self.name.clone(),
            command: self.command.clone(),
            args: copy_strings(&self.args),
            icon: self.icon.clone(),
            terminal: self.terminal,
            id: self.id.clone(),
        }
    }

    /// The text of the row that shows this application: its glyph, then its name.
    pub fn row_label(&self) -> (r: String)
        ensures
            r@ == seq![' '] + self.icon@ + seq![' '] + self.name@,
    {
        let mut r = String::from_str(" ");
        r.append(self.icon.as_str());
        r.append(" ");
        r.append(self.name.as_str());
        proof {
            reveal_strlit(" ");
        }
        r
    }
}

/// Glyph for an icon name: a fixed table, with a generic glyph for every other name.
pub open spec fn glyph_for(icon: Option<Seq<char>>) -> Seq<char> {
    match icon {
        Some(n) => if n == "firefox"@ {
            "\u{f269}"@
        } else if n == "chromium"@ || n == "google-chrome"@ {
            "\u{f268}"@
        } else if n == "utilities-terminal"@ || n == "kitty"@ || n == "Alacritty"@ {
            "\u{f489}"@
        } else if n == "code"@ || n == "vscode"@ {
            "\u{e70c}"@
        } else if n == "thunderbird"@ {
            "\u{f0e0}"@
        } else {
            "\u{f2d0}"@
        },
        None => "\u{f2d0}"@,
    }
}

/// The glyph that [`glyph_for`] gives to an icon name.
pub fn icon_glyph(icon: &Option<Vec<char>>) -> (r: String)
    ensures
        r@ == glyph_for(match icon {
            Some(v) => Some(v@),
            None => None,
        }),
{
    match icon {
        Some(n) => {
            if same_text(n, "firefox") {
                String::from_str("\u{f269}")
            } else if same_text(n, "chromium") || same_text(n, "google-chrome") {
                String::from_str("\u{f268}")
            } else if same_text(n, "utilities-terminal") || same_text(n, "kitty") || same_text(
                n,
                "Alacritty",
            ) {
                String::from_str("\u{f489}")
            } else if same_text(n, "code") || same_text(n, "vscode") {
                String::from_str("\u{e70c}")
            } else if same_text(n, "thunderbird") {
                String::from_str("\u{f0e0}")
            } else {
                String::from_str("\u{f2d0}")
            }
        },
        None => String::from_str("\u{f2d0}"),
    }
}

} // verus!
