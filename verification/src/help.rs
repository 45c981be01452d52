//! The grouped help text of the command line.
use crate::error::Error;
use crate::text::chars_of;
use vstd::prelude::*;
use vstd::utf8::encode_utf8;

verus! {

#[derive(Debug)]
pub struct HelpCommand {
    pub name: &'static str,
    pub about: &'static str,
}

#[derive(Debug)]
pub struct HelpCommandGroup {
    pub heading: &'static str,
    pub commands: Vec<HelpCommand>,
}

/// A command as its name and what it is about.
pub type CommandView = (Seq<char>, Seq<char>);

/// A group as its heading and its commands.
pub type GroupView = (Seq<char>, Seq<CommandView>);

impl View for HelpCommand {
    type V = CommandView;

    open spec fn view(&self) -> CommandView {
        (self.name@, self.about@)
    }
}

pub open spec fn command_views(commands: Seq<HelpCommand>) -> Seq<CommandView> {
    commands.map_values(|c: HelpCommand| c@)
}

impl View for HelpCommandGroup {
    type V = GroupView;

    open spec fn view(&self) -> GroupView {
        (self.heading@, command_views(self.commands@))
    }
}

pub open spec fn group_views(groups: Seq<HelpCommandGroup>) -> Seq<GroupView> {
    groups.map_values(|g: HelpCommandGroup| g@)
}

pub trait HelpGroup {
    fn help_group() -> HelpCommandGroup;
}

pub trait HelpTemplate {
    fn help_template() -> String;
}

/// A text between the terminal codes of a heading: bold, underlined.
pub open spec fn heading_text(text: Seq<char>) -> Seq<char> {
    "\x1b[1m\x1b[4m"@ + text + "\x1b[0m"@
}

/// A text between the terminal codes of a command: bold.
pub open spec fn command_text(text: Seq<char>) -> Seq<char> {
    "\x1b[1m"@ + text + "\x1b[0m"@
}

/// A bold, underlined `anstyle::Style` writes `ESC[1m` and `ESC[4m`, and
/// `render_reset` of it writes `ESC[0m`.
#[verifier::external_body]
fn styled_heading(text: &str) -> (r: String)
    ensures
        r@ == heading_text(text@),
{
    let style = anstyle::Style::new().bold().underline();
    format!("{style}{text}{}", style.render_reset())
}

/// A bold `anstyle::Style` writes `ESC[1m`, and `render_reset` of it writes
/// `ESC[0m`.
#[verifier::external_body]
fn styled_command(text: &str) -> (r: String)
    ensures
        r@ == command_text(text@),
{
    let style = anstyle::Style::new().bold();
    format!("{style}{text}{}", style.render_reset())
}

/// The length in bytes of the longest name.
pub open spec fn name_width(commands: Seq<CommandView>) -> nat
    decreases commands.len(),
{
    if commands.len() == 0 {
        0
    } else {
        let before = name_width(commands.drop_last());
        let last = encode_utf8(commands.last().0).len();
        if last > before {
            last
        } else {
            before
        }
    }
}

/// `n` spaces.
pub open spec fn spaces(n: int) -> Seq<char>
    decreases n,
{
    if n <= 0 {
        seq![]
    } else {
        spaces(n - 1).push(' ')
    }
}

/// `text` with spaces behind it, up to `width` characters.
pub open spec fn padded(text: Seq<char>, width: nat) -> Seq<char> {
    text + spaces(width - text.len())
}

pub open spec fn command_line(command: CommandView, width: nat) -> Seq<char> {
    "    "@ + command_text(padded(command.0, width)) + "  "@ + command.1 + "\n"@
}

pub open spec fn command_lines(commands: Seq<CommandView>, width: nat) -> Seq<char>
    decreases commands.len(),
{
    if commands.len() == 0 {
        seq![]
    } else {
        command_lines(commands.drop_last(), width) + command_line(commands.last(), width)
    }
}

/// One group: its heading, a line for each command, an empty line.
pub open spec fn group_text(group: GroupView) -> Seq<char> {
    "  "@ + heading_text(group.0 + ":"@) + "\n"@ + command_lines(group.1, name_width(group.1))
        + "\n"@
}

pub open spec fn group_texts(groups: Seq<GroupView>) -> Seq<char>
    decreases groups.len(),
{
    if groups.len() == 0 {
        seq![]
    } else {
        group_texts(groups.drop_last()) + group_text(groups.last())
    }
}

/// The whole help template.
pub open spec fn help_text(groups: Seq<GroupView>) -> Seq<char> {
    "{about-with-newline}\n{usage-heading} {usage}\n\n"@ + heading_text("Command groups:"@) + "\n"@
        + group_texts(groups) + heading_text("Options:"@) + "\n"@ + "{options}"@
}

fn longest_name(commands: &Vec<HelpCommand>) -> (r: usize)
    ensures
        r == name_width(command_views(commands@)),
{
    let mut width: usize = 0;
    let mut i: usize = 0;
    while i < commands.len()
        invariant
            i <= commands@.len(),
            width == name_width(command_views(commands@).take(i as int)),
        decreases commands@.len() - i,
    {
        let n: usize = commands[i].name.as_bytes().len();
        if n > width {
            width = n;
        }
        i += 1;
        proof {
            assert(command_views(commands@).take(i as int).drop_last() =~= command_views(
                commands@,
            ).take(i - 1));
        }
    }
    proof {
        assert(command_views(commands@).take(i as int) =~= command_views(commands@));
    }
    width
}

fn pad(text: &str, width: usize) -> (r: String)
    ensures
        r@ == padded(text@, width as nat),
{
    let mut r = text.to_owned();
    let n: usize = text.unicode_len();
    let mut i: usize = n;
    proof {
        assert(spaces(0) =~= seq![]);
        assert(text@ + spaces(0) =~= text@);
    }
    while i < width
        invariant
            n == text@.len(),
            n <= i,
            i <= width || i == n,
            r@ == text@ + spaces(i - n),
        decreases width - i,
    {
        r.push(' ');
        i += 1;
        proof {
            assert(text@ + spaces(i - n) =~= (text@ + spaces(i - n - 1)).push(' '));
        }
    }
    proof {
        if width < n {
            assert(spaces(width - n) =~= spaces(0));
        }
    }
    r
}

fn render_command(command: &HelpCommand, width: usize) -> (r: String)
    ensures
        r@ == command_line(command@, width as nat),
{
    let mut line = "    ".to_owned();
    line.append(&styled_command(&pad(command.name, width)));
    line.append("  ");
    line.append(command.about);
    line.append("\n");
    line
}

fn render_group(group: &HelpCommandGroup) -> (r: String)
    ensures
        r@ == group_text(group@),
{
    let width = longest_name(&group.commands);
    let mut heading = group.heading.to_owned();
    heading.append(":");
    let mut r = "  ".to_owned();
    r.append(&styled_heading(&heading));
    r.append("\n");
    let ghost start = r@;
    let ghost all = command_views(group.commands@);
    let mut i: usize = 0;
    proof {
        assert(start + command_lines(all.take(0), width as nat) =~= start);
    }
    while i < group.commands.len()
        invariant
            i <= group.commands@.len(),
            all == command_views(group.commands@),
            r@ == start + command_lines(all.take(i as int), width as nat),
        decreases group.commands@.len() - i,
    {
        let line = render_command(&group.commands[i], width);
        r.append(&line);
        i += 1;
        proof {
            assert(all.take(i as int).drop_last() =~= all.take(i - 1));
            assert(start + command_lines(all.take(i as int), width as nat) =~= start
                + command_lines(all.take(i - 1), width as nat) + line@);
        }
    }
    r.append("\n");
    proof {
        assert(all.take(i as int) =~= all);
    }
    r
}

pub fn render_help_template(groups: Vec<HelpCommandGroup>) -> (r: String)
    ensures
        r@ == help_text(group_views(groups@)),
{
    let mut template = "{about-with-newline}\n{usage-heading} {usage}\n\n".to_owned();
    template.append(&styled_heading("Command groups:"));
    template.append("\n");
    let ghost start = template@;
    let ghost all = group_views(groups@);
    let mut i: usize = 0;
    proof {
        assert(start + group_texts(all.take(0)) =~= start);
    }
    while i < groups.len()
        invariant
            i <= groups@.len(),
            all == group_views(groups@),
            template@ == start + group_texts(all.take(i as int)),
        decreases groups@.len() - i,
    {
        let text = render_group(&groups[i]);
        template.append(&text);
        i += 1;
        proof {
            assert(all.take(i as int).drop_last() =~= all.take(i - 1));
            assert(start + group_texts(all.take(i as int)) =~= start + group_texts(all.take(i - 1))
                + text@);
        }
    }
    template.append(&styled_heading("Options:"));
    template.append("\n");
    template.append("{options}");
    proof {
        assert(all.take(i as int) =~= all);
    }
    template
}

/// Whether a character has the Unicode property `Uppercase`.
pub uninterp spec fn is_upper(c: char) -> bool;

/// `char::is_uppercase`.
#[verifier::external_body]
fn upper(c: char) -> (r: bool)
    ensures
        r == is_upper(c),
{
    c.is_uppercase()
}

/// The lowercase mapping of a character.
pub uninterp spec fn lower_of(c: char) -> Seq<char>;

/// `char::to_lowercase`, collected.
#[verifier::external_body]
fn lowered(c: char) -> (r: String)
    ensures
        r@ == lower_of(c),
{
    c.to_lowercase().to_string()
}

/// One character of an identifier in kebab case, where `first` tells whether
/// it stands at the beginning.
pub open spec fn kebab_char(c: char, first: bool) -> Seq<char> {
    if is_upper(c) {
        if first {
            lower_of(c)
        } else {
            seq!['-'] + lower_of(c)
        }
    } else {
        seq![c]
    }
}

/// An identifier in kebab case.
pub open spec fn kebab(s: Seq<char>) -> Seq<char>
    decreases s.len(),
{
    if s.len() == 0 {
        seq![]
    } else {
        kebab(s.drop_last()) + kebab_char(s.last(), s.len() == 1)
    }
}

pub fn to_kebab_case(input: &str) -> (r: String)
    ensures
        r@ == kebab(input@),
{
    let v = chars_of(input);
    let mut r = String::new();
    let mut i: usize = 0;
    while i < v.len()
        invariant
            v@ == input@,
            i <= v@.len(),
            r@ == kebab(input@.take(i as int)),
        decreases v@.len() - i,
    {
        let ghost before = r@;
        let c = v[i];
        if upper(c) {
            if i > 0 {
                r.push('-');
            }
            r.append(&lowered(c));
        } else {
            r.push(c);
        }
        i += 1;
        proof {
            assert(input@.take(i as int).drop_last() =~= input@.take(i - 1));
            assert(r@ =~= before + kebab_char(c, i == 1));
        }
    }
    proof {
        assert(input@.take(i as int) =~= input@);
    }
    r
}

/// What a subcommand declares for the grouped help: the identifier of its
/// variant, its own name if it has one, what it is about, whether it is hidden.
#[derive(Debug)]
pub struct Subcommand {
    pub ident: String,
    pub name: Option<String>,
    pub about: Option<String>,
    pub hidden: bool,
}

pub open spec fn subcommand_name(s: Subcommand) -> Seq<char> {
    match s.name {
        Some(name) => name@,
        None => kebab(s.ident@),
    }
}

/// A subcommand that the help would have to list without a word about it.
pub open spec fn lacks_about(s: Subcommand) -> bool {
    !s.hidden && s.about is None
}

/// The entries of a group: its subcommands that are not hidden.
pub open spec fn group_entries(subcommands: Seq<Subcommand>) -> Seq<CommandView>
    decreases subcommands.len(),
{
    if subcommands.len() == 0 {
        seq![]
    } else {
        let before = group_entries(subcommands.drop_last());
        let last = subcommands.last();
        if last.hidden {
            before
        } else {
            before.push((subcommand_name(last), last.about->0@))
        }
    }
}

pub open spec fn pair_views(v: Seq<(String, String)>) -> Seq<(Seq<char>, Seq<char>)> {
    v.map_values(|p: (String, String)| (p.0@, p.1@))
}

/// The entries that a group of subcommands has in the help. Hidden ones have
/// none; each other one needs to say what it is about.
pub fn expand_help_group(subcommands: &Vec<Subcommand>) -> (r: Result<Vec<(String, String)>, Error>)
    ensures
        r is Ok <==> forall|i: int|
            0 <= i < subcommands@.len() ==> !lacks_about(#[trigger] subcommands@[i]),
        r matches Ok(entries) ==> pair_views(entries@) == group_entries(subcommands@),
        r matches Err(e) ==> e@
            == "grouped help requires #[command(about = \"...\")] on every grouped subcommand"@,
{
    let mut entries: Vec<(String, String)> = Vec::new();
    proof {
        assert(pair_views(entries@) =~= group_entries(subcommands@.take(0)));
    }
    let mut i: usize = 0;
    while i < subcommands.len()
        invariant
            i <= subcommands@.len(),
            pair_views(entries@) == group_entries(subcommands@.take(i as int)),
            forall|j: int| 0 <= j < i ==> !lacks_about(#[trigger] subcommands@[j]),
        decreases subcommands@.len() - i,
    {
        let sub = &subcommands[i];
        let ghost before = pair_views(entries@);
        proof {
            assert(subcommands@.take(i + 1).drop_last() =~= subcommands@.take(i as int));
        }
        if !sub.hidden {
            let name = match &sub.name {
                Some(name) => name.clone(),
                None => to_kebab_case(&sub.ident),
            };
            let about = match &sub.about {
                Some(about) => about.clone(),
                None => {
                    proof {
                        assert(lacks_about(subcommands@[i as int]));
                    }
                    return Err(
                        Error::fixed(
                            "grouped help requires #[command(about = \"...\")] on every grouped subcommand",
                        ),
                    );
                },
            };
            let ghost entry = (name@, about@);
            entries.push((name, about));
            proof {
                assert(pair_views(entries@) =~= before.push(entry));
            }
        }
        i += 1;
    }
    proof {
        assert(subcommands@.take(i as int) =~= subcommands@);
    }
    Ok(entries)
}

} // verus!
