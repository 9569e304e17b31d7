use vstd::prelude::*;
use vstd::string::StringExecFns;

verus! {

/// `String::push` appends one character.
pub assume_specification[ String::push ](s: &mut String, ch: char)
    ensures
        final(s)@ == old(s)@.push(ch),
;

/// The colours used in help text.
#[derive(Clone, Copy, Debug, PartialEq, Eq, Structural)]
pub enum HelpColor {
    Yellow,
    Gray,
    Gold,
}

/// One piece of a help message.
pub struct HelpSegment {
    pub text: String,
    pub color: Option<HelpColor>,
    pub strikethrough: bool,
}

/// What kind of value an argument takes, as far as its default is concerned.
#[derive(Clone, Copy, Debug, PartialEq, Eq, Structural)]
pub enum ArgumentKind {
    Direction,
    DirectionVector,
    UnsignedInteger,
    Other,
}

/// The default value declared for an argument.
#[derive(Clone, Copy, Debug, PartialEq, Eq, Structural)]
pub enum ArgumentDefault {
    Undeclared,
    UnsignedInteger(u32),
    OtherValue,
}

pub struct ArgumentHelp {
    pub name: String,
    pub description: String,
    pub kind: ArgumentKind,
    pub default: ArgumentDefault,
}

pub struct FlagHelp {
    pub letter: char,
    pub description: String,
}

pub struct CommandHelp {
    pub name: String,
    pub description: String,
    pub arguments: Vec<ArgumentHelp>,
    pub flags: Vec<FlagHelp>,
}

pub open spec fn digit_char(d: nat) -> char {
    (48 + d) as char
}

/// The decimal digits of `n`, most significant first, without leading zeros.
pub open spec fn decimal(n: nat) -> Seq<char>
    decreases n,
{
    if n < 10 {
        seq![digit_char(n)]
    } else {
        decimal(n / 10).push(digit_char(n % 10))
    }
}

fn digit_str(d: u32) -> (s: &'static str)
    requires
        d < 10,
    ensures
        s@ == seq![digit_char(d as nat)],
{
    proof {
        reveal_strlit("0");
        reveal_strlit("1");
        reveal_strlit("2");
        reveal_strlit("3");
        reveal_strlit("4");
        reveal_strlit("5");
        reveal_strlit("6");
        reveal_strlit("7");
        reveal_strlit("8");
        reveal_strlit("9");
    }
    match d {
        0 => "0",
        1 => "1",
        2 => "2",
        3 => "3",
        4 => "4",
        5 => "5",
        6 => "6",
        7 => "7",
        8 => "8",
        _ => "9",
    }
}

/// The decimal representation of `n`, as `u32::to_string` writes it.
pub fn decimal_string(n: u32) -> (s: String)
    ensures
        s@ == decimal(n as nat),
    decreases n,
{
    if n < 10 {
        String::from_str(digit_str(n))
    } else {
        let mut s = decimal_string(n / 10);
        s.append(digit_str(n % 10));
        s
    }
}

pub open spec fn seg(text: Seq<char>, color: Option<HelpColor>, strike: bool) -> (Seq<char>, Option<HelpColor>, bool) {
    (text, color, strike)
}

pub open spec fn segment_view(s: HelpSegment) -> (Seq<char>, Option<HelpColor>, bool) {
    (s.text@, s.color, s.strikethrough)
}

pub open spec fn segments_view(v: Seq<HelpSegment>) -> Seq<(Seq<char>, Option<HelpColor>, bool)> {
    v.map_values(|s: HelpSegment| segment_view(s))
}

/// The text of an argument's default, if the help shows one: a declared
/// unsigned default in decimal; otherwise, for an undeclared default, `me`
/// for directions and `1` for unsigned integers.
pub open spec fn default_text(arg: ArgumentHelp) -> Option<Seq<char>> {
    match arg.default {
        ArgumentDefault::UnsignedInteger(n) => Some(decimal(n as nat)),
        ArgumentDefault::OtherValue => None,
        ArgumentDefault::Undeclared => match arg.kind {
            ArgumentKind::Direction | ArgumentKind::DirectionVector => Some("me"@),
            ArgumentKind::UnsignedInteger => Some("1"@),
            ArgumentKind::Other => None,
        },
    }
}

pub open spec fn help_header(name: Seq<char>, cmd: CommandHelp) -> Seq<(Seq<char>, Option<HelpColor>, bool)> {
    seq![
        seg("--------------"@, Some(HelpColor::Yellow), true),
        seg(" Help for /"@ + name + " "@, None, false),
        seg("--------------\n"@, Some(HelpColor::Yellow), true),
        seg(cmd.description@, Some(HelpColor::Gray), false),
        seg("\nUsage: "@, Some(HelpColor::Gray), false),
        seg("/"@ + name, Some(HelpColor::Gold), false),
    ]
}

/// ` [name]` for every argument, after the usage line.
pub open spec fn usage_args(args: Seq<ArgumentHelp>) -> Seq<(Seq<char>, Option<HelpColor>, bool)>
    decreases args.len(),
{
    if args.len() == 0 {
        seq![]
    } else {
        usage_args(args.drop_last()) + seq![
            seg(" ["@, Some(HelpColor::Yellow), false),
            seg(args.last().name@, Some(HelpColor::Gold), false),
            seg("]"@, Some(HelpColor::Yellow), false),
        ]
    }
}

pub open spec fn arg_detail(arg: ArgumentHelp) -> Seq<(Seq<char>, Option<HelpColor>, bool)> {
    seq![
        seg("\n  ["@, Some(HelpColor::Yellow), false),
        seg(arg.name@, Some(HelpColor::Gold), false),
        seg("]"@, Some(HelpColor::Yellow), false),
    ] + (match default_text(arg) {
        Some(d) => seq![seg(" (defaults to "@ + d + ")"@, Some(HelpColor::Gray), false)],
        None => seq![],
    }) + seq![seg(": "@ + arg.description@, Some(HelpColor::Gray), false)]
}

/// One line per argument: its name, its default if any, and its description.
pub open spec fn arg_details(args: Seq<ArgumentHelp>) -> Seq<(Seq<char>, Option<HelpColor>, bool)>
    decreases args.len(),
{
    if args.len() == 0 {
        seq![]
    } else {
        arg_details(args.drop_last()) + arg_detail(args.last())
    }
}

/// One line per flag: its letter and its description.
pub open spec fn flag_details(flags: Seq<FlagHelp>) -> Seq<(Seq<char>, Option<HelpColor>, bool)>
    decreases flags.len(),
{
    if flags.len() == 0 {
        seq![]
    } else {
        flag_details(flags.drop_last()) + seq![
            seg("\n  -"@.push(flags.last().letter), Some(HelpColor::Gold), false),
            seg(": "@ + flags.last().description@, Some(HelpColor::Gray), false),
        ]
    }
}

/// The whole help message of a command shown under the name `name`.
pub open spec fn help_spec(name: Seq<char>, cmd: CommandHelp) -> Seq<(Seq<char>, Option<HelpColor>, bool)> {
    help_header(name, cmd)
        + usage_args(cmd.arguments@)
        + (if cmd.arguments@.len() > 0 { seq![seg("\nArguments:"@, Some(HelpColor::Gray), false)] } else { seq![] })
        + arg_details(cmd.arguments@)
        + (if cmd.flags@.len() > 0 { seq![seg("\nFlags:"@, Some(HelpColor::Gray), false)] } else { seq![] })
        + flag_details(cmd.flags@)
}

fn segment(text: String, color: Option<HelpColor>, strikethrough: bool) -> (s: HelpSegment)
    ensures
        segment_view(s) == seg(text@, color, strikethrough),
{
    HelpSegment { text, color, strikethrough }
}

fn push_segment(msg: &mut Vec<HelpSegment>, text: String, color: Option<HelpColor>, strikethrough: bool)
    ensures
        segments_view(final(msg)@) == segments_view(old(msg)@).push(seg(text@, color, strikethrough)),
{
    let ghost before = msg@;
    msg.push(segment(text, color, strikethrough));
    proof {
        assert(segments_view(msg@) =~= segments_view(before).push(seg(text@, color, strikethrough)));
    }
}

fn concat2(a: &str, b: &str) -> (s: String)
    ensures
        s@ == a@ + b@,
{
    let mut s = String::from_str(a);
    s.append(b);
    s
}

/// What the help shows as an argument's default: a declared unsigned default
/// in decimal digits; no default for one declared otherwise; and for an
/// undeclared default, `me` for a direction or a direction vector, `1` for an
/// unsigned integer, and none for any other kind.
pub proof fn law_default_text_by_kind(arg: ArgumentHelp)
    ensures
        arg.default matches ArgumentDefault::UnsignedInteger(n) ==> default_text(arg) == Some(decimal(n as nat)),
        arg.default is OtherValue ==> default_text(arg) is None,
        arg.default is Undeclared && (arg.kind is Direction || arg.kind is DirectionVector) ==>
            default_text(arg) == Some(seq!['m', 'e']),
        arg.default is Undeclared && arg.kind is UnsignedInteger ==> default_text(arg) == Some(seq!['1']),
        arg.default is Undeclared && arg.kind is Other ==> default_text(arg) is None,
{
    reveal_strlit("me");
    reveal_strlit("1");
}

/// The text of an argument's default as the help shows it, if any.
pub fn argument_default_text(arg: &ArgumentHelp) -> (r: Option<String>)
    ensures
        r matches Some(t) ==> default_text(*arg) == Some(t@),
        r is None ==> default_text(*arg) is None,
        arg.default is Undeclared && (arg.kind is Direction || arg.kind is DirectionVector) ==>
            r is Some && r->Some_0@ == seq!['m', 'e'],
        arg.default is Undeclared && arg.kind is UnsignedInteger ==> r is Some && r->Some_0@ == seq!['1'],
        arg.default is Undeclared && arg.kind is Other ==> r is None,
        arg.default is OtherValue ==> r is None,
        arg.default matches ArgumentDefault::UnsignedInteger(n) ==> (r is Some && r->Some_0@ == decimal(n as nat)),
{
    proof {
        law_default_text_by_kind(*arg);
    }
    match arg.default {
        ArgumentDefault::UnsignedInteger(n) => Some(decimal_string(n)),
        ArgumentDefault::OtherValue => None,
        ArgumentDefault::Undeclared => match arg.kind {
            ArgumentKind::Direction | ArgumentKind::DirectionVector => Some(String::from_str("me")),
            ArgumentKind::UnsignedInteger => Some(String::from_str("1")),
            ArgumentKind::Other => None,
        },
    }
}

/// Builds the help message of `cmd`, shown under the name `name`: a
/// header, the usage line, the arguments with their defaults, and the flags.
pub fn help_message(name: &str, cmd: &CommandHelp) -> (msg: Vec<HelpSegment>)
    ensures
        segments_view(msg@) == help_spec(name@, *cmd),
{
    let mut msg: Vec<HelpSegment> = Vec::new();
    push_segment(&mut msg, String::from_str("--------------"), Some(HelpColor::Yellow), true);
    let mut title = concat2(" Help for /", name);
    title.append(" ");
    push_segment(&mut msg, title, None, false);
    push_segment(&mut msg, String::from_str("--------------\n"), Some(HelpColor::Yellow), true);
    push_segment(&mut msg, cmd.description.clone(), Some(HelpColor::Gray), false);
    push_segment(&mut msg, String::from_str("\nUsage: "), Some(HelpColor::Gray), false);
    push_segment(&mut msg, concat2("/", name), Some(HelpColor::Gold), false);
    proof {
        assert(segments_view(msg@) =~= help_header(name@, *cmd));
    }
    let ghost args = cmd.arguments@;
    let mut i: usize = 0;
    while i < cmd.arguments.len()
        invariant
            args == cmd.arguments@,
            i <= args.len(),
            segments_view(msg@) == help_header(name@, *cmd) + usage_args(args.take(i as int)),
        decreases args.len() - i,
    {
        let arg = &cmd.arguments[i];
        let ghost before = segments_view(msg@);
        push_segment(&mut msg, String::from_str(" ["), Some(HelpColor::Yellow), false);
        push_segment(&mut msg, arg.name.clone(), Some(HelpColor::Gold), false);
        push_segment(&mut msg, String::from_str("]"), Some(HelpColor::Yellow), false);
        proof {
            assert(args.take(i + 1).drop_last() =~= args.take(i as int));
            assert(args.take(i + 1).last() == args[i as int]);
            assert(segments_view(msg@) =~= help_header(name@, *cmd) + usage_args(args.take(i + 1)));
        }
        i = i + 1;
    }
    proof {
        assert(args.take(args.len() as int) =~= args);
    }
    let ghost after_usage = segments_view(msg@);
    if cmd.arguments.len() > 0 {
        push_segment(&mut msg, String::from_str("\nArguments:"), Some(HelpColor::Gray), false);
    }
    let ghost after_title = segments_view(msg@);
    proof {
        assert(after_title =~= after_usage + (if args.len() > 0 { seq![seg("\nArguments:"@, Some(HelpColor::Gray), false)] } else { seq![] }));
        assert(after_title =~= after_title + arg_details(args.take(0)));
    }
    let mut i: usize = 0;
    while i < cmd.arguments.len()
        invariant
            args == cmd.arguments@,
            i <= args.len(),
            segments_view(msg@) == after_title + arg_details(args.take(i as int)),
        decreases args.len() - i,
    {
        let arg = &cmd.arguments[i];
        push_segment(&mut msg, String::from_str("\n  ["), Some(HelpColor::Yellow), false);
        push_segment(&mut msg, arg.name.clone(), Some(HelpColor::Gold), false);
        push_segment(&mut msg, String::from_str("]"), Some(HelpColor::Yellow), false);
        let ghost mid = segments_view(msg@);
        match argument_default_text(arg) {
            Some(d) => {
                let mut t = String::from_str(" (defaults to ");
                t.append(d.as_str());
                t.append(")");
                push_segment(&mut msg, t, Some(HelpColor::Gray), false);
            },
            None => {},
        }
        push_segment(&mut msg, concat2(": ", arg.description.as_str()), Some(HelpColor::Gray), false);
        proof {
            assert(args.take(i + 1).drop_last() =~= args.take(i as int));
            assert(args.take(i + 1).last() == args[i as int]);
            assert(segments_view(msg@) =~= after_title + arg_details(args.take(i + 1)));
        }
        i = i + 1;
    }
    proof {
        assert(args.take(args.len() as int) =~= args);
    }
    let ghost flags = cmd.flags@;
    let ghost after_args = segments_view(msg@);
    if cmd.flags.len() > 0 {
        push_segment(&mut msg, String::from_str("\nFlags:"), Some(HelpColor::Gray), false);
    }
    let ghost after_flag_title = segments_view(msg@);
    proof {
        assert(after_flag_title =~= after_args + (if flags.len() > 0 { seq![seg("\nFlags:"@, Some(HelpColor::Gray), false)] } else { seq![] }));
        assert(after_flag_title =~= after_flag_title + flag_details(flags.take(0)));
    }
    let mut j: usize = 0;
    while j < cmd.flags.len()
        invariant
            flags == cmd.flags@,
            j <= flags.len(),
            segments_view(msg@) == after_flag_title + flag_details(flags.take(j as int)),
        decreases flags.len() - j,
    {
        let flag = &cmd.flags[j];
        let mut t = String::from_str("\n  -");
        t.push(flag.letter);
        push_segment(&mut msg, t, Some(HelpColor::Gold), false);
        push_segment(&mut msg, concat2(": ", flag.description.as_str()), Some(HelpColor::Gray), false);
        proof {
            assert(flags.take(j + 1).drop_last() =~= flags.take(j as int));
            assert(flags.take(j + 1).last() == flags[j as int]);
            assert(segments_view(msg@) =~= after_flag_title + flag_details(flags.take(j + 1)));
        }
        j = j + 1;
    }
    proof {
        assert(flags.take(flags.len() as int) =~= flags);
        assert(segments_view(msg@) =~= help_spec(name@, *cmd));
    }
    msg
}


/// The position of the first command called exactly `name`, if any.
pub fn find_command(commands: &Vec<CommandHelp>, name: &String) -> (r: Option<usize>)
    ensures
        r matches Some(i) ==> i < commands@.len() && commands@[i as int].name@ == name@
            && forall|j: int| 0 <= j < i ==> (#[trigger] commands@[j]).name@ != name@,
        r is None ==> forall|j: int| 0 <= j < commands@.len() ==> (#[trigger] commands@[j]).name@ != name@,
{
    let mut i: usize = 0;
    while i < commands.len()
        invariant
            i <= commands@.len(),
            forall|j: int| 0 <= j < i ==> (#[trigger] commands@[j]).name@ != name@,
        decreases commands@.len() - i,
    {
        if commands[i].name == *name {
            return Some(i);
        }
        i = i + 1;
    }
    None
}

/// Looks a command up for help: by the name as given, or else with a `/`
/// in front (the double-slash commands). Gives the name it was found under.
pub fn lookup_help(commands: &Vec<CommandHelp>, name: &str) -> (r: Option<(String, usize)>)
    ensures
        r matches Some((found, i)) ==> i < commands@.len() && commands@[i as int].name@ == found@
            && (found@ == name@ || (found@ == "/"@ + name@ && forall|j: int| 0 <= j < commands@.len() ==> (#[trigger] commands@[j]).name@ != name@)),
        r is None ==> forall|j: int| 0 <= j < commands@.len() ==>
            (#[trigger] commands@[j]).name@ != name@ && commands@[j].name@ != "/"@ + name@,
{
    let plain = String::from_str(name);
    match find_command(commands, &plain) {
        Some(i) => Some((plain, i)),
        None => {
            let slashed = concat2("/", name);
            match find_command(commands, &slashed) {
                Some(i) => Some((slashed, i)),
                None => None,
            }
        },
    }
}


/// No two commands in `commands` share a name.
pub open spec fn command_names_unique(commands: Seq<CommandHelp>) -> bool {
    forall|i: int, j: int| 0 <= i < commands.len() && 0 <= j < commands.len() && i != j ==>
        (#[trigger] commands[i]).name@ != (#[trigger] commands[j]).name@
}

/// The commands that help can be asked for, each kept under its own name:
/// no name occurs twice.
pub struct CommandTable {
    commands: Vec<CommandHelp>,
}

impl View for CommandTable {
    type V = Seq<CommandHelp>;

    closed spec fn view(&self) -> Seq<CommandHelp> {
        self.commands@
    }
}

impl CommandTable {
    pub closed spec fn wf(&self) -> bool {
        command_names_unique(self.commands@)
    }

    /// A table with no commands.
    pub fn new() -> (t: CommandTable)
        ensures
            t.wf(),
            t@ == Seq::<CommandHelp>::empty(),
    {
        CommandTable { commands: Vec::new() }
    }

    /// Adds `cmd` under its name. A command already kept under that name is
    /// replaced in its place; otherwise `cmd` comes last.
    pub fn insert(&mut self, cmd: CommandHelp)
        requires
            old(self).wf(),
        ensures
            final(self).wf(),
            forall|i: int| 0 <= i < old(self)@.len() && (#[trigger] old(self)@[i]).name@ == cmd.name@ ==>
                final(self)@ == old(self)@.update(i, cmd),
            (forall|i: int| 0 <= i < old(self)@.len() ==> (#[trigger] old(self)@[i]).name@ != cmd.name@) ==>
                final(self)@ == old(self)@.push(cmd),
    {
        let ghost before = self.commands@;
        match find_command(&self.commands, &cmd.name) {
            Some(i) => {
                self.commands.set(i, cmd);
                proof {
                    assert forall|j: int| 0 <= j < before.len() && (#[trigger] before[j]).name@ == cmd.name@
                        implies self.commands@ == before.update(j, cmd) by {
                        assert(j == i);
                    }
                }
            },
            None => {
                self.commands.push(cmd);
            },
        }
    }

    /// The commands in the order they were first added.
    pub fn commands(&self) -> (r: &Vec<CommandHelp>)
        ensures
            r@ == self@,
    {
        &self.commands
    }

    /// Looks a command up for help as `lookup_help` does. As names are not
    /// repeated, the command found is the only one under the name found.
    pub fn help_for(&self, name: &str) -> (r: Option<(String, usize)>)
        requires
            self.wf(),
        ensures
            r matches Some((found, i)) ==> i < self@.len() && self@[i as int].name@ == found@
                && (found@ == name@ || (found@ == "/"@ + name@ && forall|j: int| 0 <= j < self@.len() ==> (#[trigger] self@[j]).name@ != name@))
                && forall|j: int| 0 <= j < self@.len() && j != i ==> (#[trigger] self@[j]).name@ != found@,
            r is None ==> forall|j: int| 0 <= j < self@.len() ==>
                (#[trigger] self@[j]).name@ != name@ && self@[j].name@ != "/"@ + name@,
    {
        let r = lookup_help(&self.commands, name);
        proof {
            if r is Some {
                let i = r->Some_0.1 as int;
                assert forall|j: int| 0 <= j < self@.len() && j != i implies (#[trigger] self@[j]).name@ != r->Some_0.0@ by {
                    assert(self.commands@[j].name@ != self.commands@[i].name@);
                }
            }
        }
        r
    }
}

} // verus!
