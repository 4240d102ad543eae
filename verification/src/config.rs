//! The line-oriented configuration format.
//!
//! A configuration text is read line by line.  Each line is trimmed; empty
//! lines are dropped.  The standalone markers `@ac` and `@battery`
//! (case-insensitive) open the two sections; every other line is tokenized
//! as a shell command and appended to the open section's list.  A line that
//! fails to tokenize, or that stands before any marker, is skipped and the
//! parse goes on: only reading the file itself can fail.

use vstd::prelude::*;
use vstd::string::*;

use crate::is_trim_space;
use crate::shell_command::ShellCommand;
use crate::shell_command::ShellCommandView;
use crate::shell_command::spec_tokenize;
use crate::spec_is_trim_space;

verus! {

/// `s` without its leading whitespace.
pub open spec fn spec_trim_start(s: Seq<char>) -> Seq<char>
    decreases s.len(),
{
    if s.len() > 0 && spec_is_trim_space(s[0]) {
        spec_trim_start(s.drop_first())
    } else {
        s
    }
}

/// `s` without its trailing whitespace.
pub open spec fn spec_trim_end(s: Seq<char>) -> Seq<char>
    decreases s.len(),
{
    if s.len() > 0 && spec_is_trim_space(s.last()) {
        spec_trim_end(s.drop_last())
    } else {
        s
    }
}

/// `s` without leading or trailing whitespace.
pub open spec fn spec_trim(s: Seq<char>) -> Seq<char> {
    spec_trim_end(spec_trim_start(s))
}

/// The trimmed, non-empty lines of `text`, split at `'\n'`, with `cur` the
/// part of the current line already read.
pub open spec fn spec_config_lines_from(text: Seq<char>, cur: Seq<char>) -> Seq<Seq<char>>
    decreases text.len(),
{
    if text.len() == 0 {
        if spec_trim(cur).len() > 0 {
            seq![spec_trim(cur)]
        } else {
            Seq::empty()
        }
    } else if text[0] == '\n' {
        if spec_trim(cur).len() > 0 {
            seq![spec_trim(cur)] + spec_config_lines_from(text.drop_first(), Seq::empty())
        } else {
            spec_config_lines_from(text.drop_first(), Seq::empty())
        }
    } else {
        spec_config_lines_from(text.drop_first(), cur.push(text[0]))
    }
}

/// The trimmed, non-empty lines of a configuration text.
pub open spec fn spec_config_lines(text: Seq<char>) -> Seq<Seq<char>> {
    spec_config_lines_from(text, Seq::empty())
}

/// An ASCII-case-insensitive match of the `@ac` section marker.
pub open spec fn spec_is_ac_marker(line: Seq<char>) -> bool {
    &&& line.len() == 3
    &&& line[0] == '@'
    &&& (line[1] == 'a' || line[1] == 'A')
    &&& (line[2] == 'c' || line[2] == 'C')
}

/// An ASCII-case-insensitive match of the `@battery` section marker.
pub open spec fn spec_is_battery_marker(line: Seq<char>) -> bool {
    &&& line.len() == 8
    &&& line[0] == '@'
    &&& (line[1] == 'b' || line[1] == 'B')
    &&& (line[2] == 'a' || line[2] == 'A')
    &&& (line[3] == 't' || line[3] == 'T')
    &&& (line[4] == 't' || line[4] == 'T')
    &&& (line[5] == 'e' || line[5] == 'E')
    &&& (line[6] == 'r' || line[6] == 'R')
    &&& (line[7] == 'y' || line[7] == 'Y')
}

/// A line that opens a section rather than naming a command.
pub open spec fn spec_is_marker(line: Seq<char>) -> bool {
    spec_is_ac_marker(line) || spec_is_battery_marker(line)
}

/// Which section the parser is in: none yet, `@ac`, or `@battery`.
pub enum ParseMode {
    NoSection,
    AcSection,
    BatterySection,
}

/// The mathematical content of a `Config`.
pub ghost struct ConfigView {
    pub on_ac_cmds: Seq<ShellCommandView>,
    pub on_bat_cmds: Seq<ShellCommandView>,
}

/// The command a valid command line stands for.
pub open spec fn spec_cmd_of(line: Seq<char>) -> ShellCommandView {
    spec_tokenize(line)->Ok_0
}

/// The section state machine, run over the remaining `lines` with the
/// commands accumulated so far: a marker switches sections, a valid command
/// line is appended to the open section's list, and a line that fails to
/// tokenize or stands outside every section is skipped.
pub open spec fn spec_parse_lines(
    lines: Seq<Seq<char>>,
    mode: ParseMode,
    ac: Seq<ShellCommandView>,
    bat: Seq<ShellCommandView>,
) -> ConfigView
    decreases lines.len(),
{
    if lines.len() == 0 {
        ConfigView { on_ac_cmds: ac, on_bat_cmds: bat }
    } else {
        let line = lines[0];
        let rest = lines.drop_first();
        if spec_is_ac_marker(line) {
            spec_parse_lines(rest, ParseMode::AcSection, ac, bat)
        } else if spec_is_battery_marker(line) {
            spec_parse_lines(rest, ParseMode::BatterySection, ac, bat)
        } else {
            match mode {
                ParseMode::NoSection => spec_parse_lines(rest, mode, ac, bat),
                ParseMode::AcSection => match spec_tokenize(line) {
                    Ok(cmd) => spec_parse_lines(rest, mode, ac.push(cmd), bat),
                    Err(_) => spec_parse_lines(rest, mode, ac, bat),
                },
                ParseMode::BatterySection => match spec_tokenize(line) {
                    Ok(cmd) => spec_parse_lines(rest, mode, ac, bat.push(cmd)),
                    Err(_) => spec_parse_lines(rest, mode, ac, bat),
                },
            }
        }
    }
}

/// What parsing a whole configuration text yields.
pub open spec fn spec_parse(text: Seq<char>) -> ConfigView {
    spec_parse_lines(spec_config_lines(text), ParseMode::NoSection, Seq::empty(), Seq::empty())
}

/// A line that neither opens a section nor fails to tokenize: it stands
/// for exactly one command.
pub open spec fn spec_is_valid_command_line(line: Seq<char>) -> bool {
    !spec_is_marker(line) && spec_tokenize(line) is Ok
}

/// The commands a run of valid command lines stands for, in order.
pub open spec fn spec_cmds_of(lines: Seq<Seq<char>>) -> Seq<ShellCommandView> {
    lines.map_values(|l: Seq<char>| spec_cmd_of(l))
}

/// Running the section state machine over a run of valid command lines
/// appends their commands, in order, to the open section's list.
proof fn lemma_parse_valid_run(
    cmds: Seq<Seq<char>>,
    rest: Seq<Seq<char>>,
    mode: ParseMode,
    ac: Seq<ShellCommandView>,
    bat: Seq<ShellCommandView>,
)
    requires
        forall|i: int| 0 <= i < cmds.len() ==> spec_is_valid_command_line(#[trigger] cmds[i]),
    ensures
        mode is AcSection ==> spec_parse_lines(cmds + rest, mode, ac, bat) == spec_parse_lines(
            rest,
            mode,
            ac + spec_cmds_of(cmds),
            bat,
        ),
        mode is BatterySection ==> spec_parse_lines(cmds + rest, mode, ac, bat) == spec_parse_lines(
            rest,
            mode,
            ac,
            bat + spec_cmds_of(cmds),
        ),
    decreases cmds.len(),
{
    if cmds.len() == 0 {
        assert(cmds + rest =~= rest);
        assert(ac + spec_cmds_of(cmds) =~= ac);
        assert(bat + spec_cmds_of(cmds) =~= bat);
    } else {
        let line = cmds[0];
        let cmd = spec_cmd_of(line);
        assert((cmds + rest)[0] == line);
        assert((cmds + rest).drop_first() =~= cmds.drop_first() + rest);
        match mode {
            ParseMode::NoSection => {},
            ParseMode::AcSection => {
                lemma_parse_valid_run(cmds.drop_first(), rest, mode, ac.push(cmd), bat);
                assert(ac.push(cmd) + spec_cmds_of(cmds.drop_first()) =~= ac + spec_cmds_of(cmds));
            },
            ParseMode::BatterySection => {
                lemma_parse_valid_run(cmds.drop_first(), rest, mode, ac, bat.push(cmd));
                assert(bat.push(cmd) + spec_cmds_of(cmds.drop_first()) =~= bat + spec_cmds_of(
                    cmds,
                ));
            },
        }
    }
}

/// A text whose lines are `@ac`, then a run of valid command lines, then
/// `@battery`, then another run, parses to exactly the first run's
/// commands on AC and the second run's on battery, in original order.
pub proof fn lemma_section_counts(ac_lines: Seq<Seq<char>>, bat_lines: Seq<Seq<char>>)
    requires
        forall|i: int| 0 <= i < ac_lines.len() ==> spec_is_valid_command_line(
            #[trigger] ac_lines[i],
        ),
        forall|i: int| 0 <= i < bat_lines.len() ==> spec_is_valid_command_line(
            #[trigger] bat_lines[i],
        ),
    ensures
        ({
            let lines = seq![seq!['@', 'a', 'c']] + ac_lines + seq![
                seq!['@', 'b', 'a', 't', 't', 'e', 'r', 'y'],
            ] + bat_lines;
            let cfg = spec_parse_lines(lines, ParseMode::NoSection, Seq::empty(), Seq::empty());
            &&& cfg.on_ac_cmds.len() == ac_lines.len()
            &&& cfg.on_bat_cmds.len() == bat_lines.len()
            &&& cfg.on_ac_cmds == spec_cmds_of(ac_lines)
            &&& cfg.on_bat_cmds == spec_cmds_of(bat_lines)
        }),
{
    let ac_marker = seq!['@', 'a', 'c'];
    let bat_marker = seq!['@', 'b', 'a', 't', 't', 'e', 'r', 'y'];
    let lines = seq![ac_marker] + ac_lines + seq![bat_marker] + bat_lines;
    let tail = seq![bat_marker] + bat_lines;
    assert(spec_is_ac_marker(ac_marker));
    assert(lines[0] == ac_marker);
    assert(lines.drop_first() =~= ac_lines + tail);
    lemma_parse_valid_run(ac_lines, tail, ParseMode::AcSection, Seq::empty(), Seq::empty());
    let ac_acc = Seq::empty() + spec_cmds_of(ac_lines);
    assert(tail[0] == bat_marker);
    assert(!spec_is_ac_marker(bat_marker));
    assert(spec_is_battery_marker(bat_marker));
    assert(tail.drop_first() =~= bat_lines);
    lemma_parse_valid_run(
        bat_lines,
        Seq::empty(),
        ParseMode::BatterySection,
        ac_acc,
        Seq::empty(),
    );
    assert(bat_lines + Seq::<Seq<char>>::empty() =~= bat_lines);
    assert(ac_acc =~= spec_cmds_of(ac_lines));
    assert(Seq::empty() + spec_cmds_of(bat_lines) =~= spec_cmds_of(bat_lines));
}

/// `lines` joined into one text with a newline between each pair.
pub open spec fn spec_join_lines(lines: Seq<Seq<char>>) -> Seq<char>
    decreases lines.len(),
{
    if lines.len() == 0 {
        Seq::empty()
    } else if lines.len() == 1 {
        lines[0]
    } else {
        lines[0] + seq!['\n'] + spec_join_lines(lines.drop_first())
    }
}

/// A line as the splitter itself would produce it: free of newlines,
/// already trimmed, and non-empty.
pub open spec fn spec_is_clean_line(l: Seq<char>) -> bool {
    &&& forall|j: int| 0 <= j < l.len() ==> l[j] != '\n'
    &&& spec_trim(l) == l
    &&& l.len() > 0
}

proof fn lemma_lines_scan_through(l: Seq<char>, x: Seq<char>, cur: Seq<char>)
    requires
        forall|j: int| 0 <= j < l.len() ==> l[j] != '\n',
    ensures
        spec_config_lines_from(l + x, cur) == spec_config_lines_from(x, cur + l),
    decreases l.len(),
{
    if l.len() == 0 {
        assert(l + x =~= x);
        assert(cur + l =~= cur);
    } else {
        assert((l + x)[0] == l[0]);
        assert((l + x).drop_first() =~= l.drop_first() + x);
        lemma_lines_scan_through(l.drop_first(), x, cur.push(l[0]));
        assert(cur.push(l[0]) + l.drop_first() =~= cur + l);
    }
}

proof fn lemma_config_lines_step(l: Seq<char>, r: Seq<char>)
    requires
        forall|j: int| 0 <= j < l.len() ==> l[j] != '\n',
    ensures
        spec_config_lines(l + seq!['\n'] + r) == (if spec_trim(l).len() > 0 {
            seq![spec_trim(l)]
        } else {
            Seq::<Seq<char>>::empty()
        }) + spec_config_lines(r),
{
    let tail = seq!['\n'] + r;
    assert(l + seq!['\n'] + r =~= l + tail);
    lemma_lines_scan_through(l, tail, Seq::empty());
    assert(Seq::<char>::empty() + l =~= l);
    assert(tail[0] == '\n');
    assert(tail.drop_first() =~= r);
    if spec_trim(l).len() == 0 {
        assert(Seq::<Seq<char>>::empty() + spec_config_lines(r) =~= spec_config_lines(r));
    }
}

/// Splitting is the inverse of joining: the trimmed, non-empty lines of a
/// newline-join of clean lines are exactly those lines.
pub proof fn lemma_config_lines_of_join(lines: Seq<Seq<char>>)
    requires
        forall|i: int| 0 <= i < lines.len() ==> spec_is_clean_line(#[trigger] lines[i]),
    ensures
        spec_config_lines(spec_join_lines(lines)) == lines,
    decreases lines.len(),
{
    if lines.len() == 0 {
        assert(spec_config_lines(spec_join_lines(lines)) =~= lines);
    } else if lines.len() == 1 {
        let l = lines[0];
        assert(l + Seq::<char>::empty() =~= l);
        lemma_lines_scan_through(l, Seq::empty(), Seq::empty());
        assert(Seq::<char>::empty() + l =~= l);
        assert(spec_config_lines(l) =~= seq![l]);
        assert(seq![l] =~= lines);
    } else {
        let l = lines[0];
        let rest = lines.drop_first();
        lemma_config_lines_step(l, spec_join_lines(rest));
        lemma_config_lines_of_join(rest);
        assert(seq![l] + rest =~= lines);
    }
}

/// The text-level form of the section-count law: join `@ac`, a run of
/// valid command lines, `@battery`, and another run into one text, and
/// parsing that text yields exactly the first run's commands on AC and the
/// second run's on battery, in original order.
pub proof fn lemma_section_counts_text(ac_lines: Seq<Seq<char>>, bat_lines: Seq<Seq<char>>)
    requires
        forall|i: int| 0 <= i < ac_lines.len() ==> spec_is_clean_line(#[trigger] ac_lines[i])
            && spec_is_valid_command_line(ac_lines[i]),
        forall|i: int| 0 <= i < bat_lines.len() ==> spec_is_clean_line(#[trigger] bat_lines[i])
            && spec_is_valid_command_line(bat_lines[i]),
    ensures
        ({
            let lines = seq![seq!['@', 'a', 'c']] + ac_lines + seq![
                seq!['@', 'b', 'a', 't', 't', 'e', 'r', 'y'],
            ] + bat_lines;
            let cfg = spec_parse(spec_join_lines(lines));
            &&& cfg.on_ac_cmds.len() == ac_lines.len()
            &&& cfg.on_bat_cmds.len() == bat_lines.len()
            &&& cfg.on_ac_cmds == spec_cmds_of(ac_lines)
            &&& cfg.on_bat_cmds == spec_cmds_of(bat_lines)
        }),
{
    let ac_marker = seq!['@', 'a', 'c'];
    let bat_marker = seq!['@', 'b', 'a', 't', 't', 'e', 'r', 'y'];
    let lines = seq![ac_marker] + ac_lines + seq![bat_marker] + bat_lines;
    assert(spec_trim(ac_marker) == ac_marker);
    assert(spec_trim(bat_marker) == bat_marker);
    assert(spec_is_clean_line(ac_marker));
    assert(spec_is_clean_line(bat_marker));
    assert(forall|i: int| 0 <= i < lines.len() ==> spec_is_clean_line(#[trigger] lines[i])) by {
        assert(forall|i: int| 0 <= i < lines.len() ==> #[trigger] lines[i] == ac_marker || lines[i]
            == bat_marker || (1 <= i <= ac_lines.len() && lines[i] == ac_lines[i - 1]) || (
        ac_lines.len() + 2 <= i && lines[i] == bat_lines[i - ac_lines.len() - 2]));
    }
    lemma_config_lines_of_join(lines);
    lemma_section_counts(ac_lines, bat_lines);
}

/// The text-level form of the skipped-bad-line law: a text of `@ac`
/// followed by valid command lines around one line that fails to tokenize
/// parses to exactly the valid lines' commands on AC, in original order,
/// and nothing on battery.
pub proof fn lemma_bad_line_skipped_text(
    before: Seq<Seq<char>>,
    bad: Seq<char>,
    after: Seq<Seq<char>>,
)
    requires
        forall|i: int| 0 <= i < before.len() ==> spec_is_clean_line(#[trigger] before[i])
            && spec_is_valid_command_line(before[i]),
        forall|i: int| 0 <= i < after.len() ==> spec_is_clean_line(#[trigger] after[i])
            && spec_is_valid_command_line(after[i]),
        spec_is_clean_line(bad),
        !spec_is_marker(bad),
        spec_tokenize(bad) is Err,
    ensures
        ({
            let lines = seq![seq!['@', 'a', 'c']] + before + seq![bad] + after;
            let cfg = spec_parse(spec_join_lines(lines));
            &&& cfg.on_ac_cmds == spec_cmds_of(before) + spec_cmds_of(after)
            &&& cfg.on_bat_cmds == Seq::<ShellCommandView>::empty()
        }),
{
    let ac_marker = seq!['@', 'a', 'c'];
    let lines = seq![ac_marker] + before + seq![bad] + after;
    assert(spec_trim(ac_marker) == ac_marker);
    assert(spec_is_clean_line(ac_marker));
    assert(forall|i: int| 0 <= i < lines.len() ==> spec_is_clean_line(#[trigger] lines[i])) by {
        assert(forall|i: int| 0 <= i < lines.len() ==> #[trigger] lines[i] == ac_marker || lines[i]
            == bad || (1 <= i <= before.len() && lines[i] == before[i - 1]) || (before.len() + 2
            <= i && lines[i] == after[i - before.len() - 2]));
    }
    lemma_config_lines_of_join(lines);
    let rest = before + seq![bad] + after;
    assert(lines[0] == ac_marker);
    assert(lines.drop_first() =~= rest);
    lemma_bad_line_skipped(before, bad, after, ParseMode::AcSection, Seq::empty(), Seq::empty());
    assert(Seq::<ShellCommandView>::empty() + spec_cmds_of(before) + spec_cmds_of(after)
        =~= spec_cmds_of(before) + spec_cmds_of(after));
}

/// Command lines standing before any section marker land in neither list,
/// whatever follows them.
pub proof fn lemma_preamble_dropped(
    pre: Seq<Seq<char>>,
    rest: Seq<Seq<char>>,
    ac: Seq<ShellCommandView>,
    bat: Seq<ShellCommandView>,
)
    requires
        forall|i: int| 0 <= i < pre.len() ==> !spec_is_marker(#[trigger] pre[i]),
    ensures
        spec_parse_lines(pre + rest, ParseMode::NoSection, ac, bat) == spec_parse_lines(
            rest,
            ParseMode::NoSection,
            ac,
            bat,
        ),
    decreases pre.len(),
{
    if pre.len() == 0 {
        assert(pre + rest =~= rest);
    } else {
        assert((pre + rest)[0] == pre[0]);
        assert((pre + rest).drop_first() =~= pre.drop_first() + rest);
        lemma_preamble_dropped(pre.drop_first(), rest, ac, bat);
    }
}

/// A line that fails to tokenize is skipped: the valid lines around it in
/// the same section still land, in order, and the other section's list is
/// untouched.
pub proof fn lemma_bad_line_skipped(
    before: Seq<Seq<char>>,
    bad: Seq<char>,
    after: Seq<Seq<char>>,
    mode: ParseMode,
    ac: Seq<ShellCommandView>,
    bat: Seq<ShellCommandView>,
)
    requires
        forall|i: int| 0 <= i < before.len() ==> spec_is_valid_command_line(#[trigger] before[i]),
        forall|i: int| 0 <= i < after.len() ==> spec_is_valid_command_line(#[trigger] after[i]),
        !spec_is_marker(bad),
        spec_tokenize(bad) is Err,
    ensures
        mode is AcSection ==> ({
            let cfg = spec_parse_lines(before + seq![bad] + after, mode, ac, bat);
            &&& cfg.on_ac_cmds == ac + spec_cmds_of(before) + spec_cmds_of(after)
            &&& cfg.on_bat_cmds == bat
        }),
        mode is BatterySection ==> ({
            let cfg = spec_parse_lines(before + seq![bad] + after, mode, ac, bat);
            &&& cfg.on_ac_cmds == ac
            &&& cfg.on_bat_cmds == bat + spec_cmds_of(before) + spec_cmds_of(after)
        }),
{
    if mode is AcSection || mode is BatterySection {
        let mid = seq![bad] + after;
        assert(before + seq![bad] + after =~= before + mid);
        lemma_parse_valid_run(before, mid, mode, ac, bat);
        assert(mid[0] == bad);
        assert(mid.drop_first() =~= after);
        match mode {
            ParseMode::NoSection => {},
            ParseMode::AcSection => {
                lemma_parse_valid_run(after, Seq::empty(), mode, ac + spec_cmds_of(before), bat);
                assert(after + Seq::<Seq<char>>::empty() =~= after);
                assert(ac + spec_cmds_of(before) + spec_cmds_of(after) =~= (ac + spec_cmds_of(
                    before,
                )) + spec_cmds_of(after));
            },
            ParseMode::BatterySection => {
                lemma_parse_valid_run(after, Seq::empty(), mode, ac, bat + spec_cmds_of(before));
                assert(after + Seq::<Seq<char>>::empty() =~= after);
                assert(bat + spec_cmds_of(before) + spec_cmds_of(after) =~= (bat + spec_cmds_of(
                    before,
                )) + spec_cmds_of(after));
            },
        }
    }
}

/// Parsing is a pure function of the text: two configurations parsed from
/// the same text have identical content.
pub proof fn lemma_parse_deterministic(text: Seq<char>, c1: ConfigView, c2: ConfigView)
    requires
        c1 == spec_parse(text),
        c2 == spec_parse(text),
    ensures
        c1 == c2,
{
}

/// The two command lists a configuration file defines.
pub struct Config {
    pub on_ac_cmds: Vec<ShellCommand>,
    pub on_bat_cmds: Vec<ShellCommand>,
}

impl View for Config {
    type V = ConfigView;

    open spec fn view(&self) -> ConfigView {
        ConfigView {
            on_ac_cmds: self.on_ac_cmds.deep_view(),
            on_bat_cmds: self.on_bat_cmds.deep_view(),
        }
    }
}

/// Why a configuration could not be produced at all.  Parsing itself never
/// fails; only reading the file can, which the surrounding program reports
/// with this error.
#[derive(Debug, Clone, Copy, PartialEq, Eq, Structural)]
pub enum LoadError {
    Io,
}

/// Which per-install path is being resolved for the program: the
/// configuration file or the log directory.
pub enum PathType {
    Config,
    Logs,
}

/// `s` with leading and trailing whitespace removed.
fn trim_str(s: &str) -> (r: &str)
    ensures
        r@ == spec_trim(s@),
{
    let n = s.unicode_len();
    let mut a: usize = 0;
    proof {
        assert(s@.subrange(0, n as int) =~= s@);
    }
    while a < n && is_trim_space(s.get_char(a))
        invariant
            a <= n,
            n == s@.len(),
            spec_trim_start(s@.subrange(a as int, n as int)) == spec_trim_start(s@),
        decreases n - a,
    {
        proof {
            assert(s@.subrange(a as int, n as int).drop_first() =~= s@.subrange(
                a as int + 1,
                n as int,
            ));
        }
        a = a + 1;
    }
    proof {
        assert(spec_trim_start(s@) == s@.subrange(a as int, n as int));
    }
    let mut b: usize = n;
    while b > a && is_trim_space(s.get_char(b - 1))
        invariant
            a <= b <= n,
            n == s@.len(),
            spec_trim_start(s@) == s@.subrange(a as int, n as int),
            spec_trim_end(s@.subrange(a as int, b as int)) == spec_trim(s@),
        decreases b,
    {
        proof {
            assert(s@.subrange(a as int, b as int).drop_last() =~= s@.subrange(
                a as int,
                b as int - 1,
            ));
        }
        b = b - 1;
    }
    let r = s.substring_char(a, b);
    proof {
        assert(spec_trim_end(s@.subrange(a as int, b as int)) == s@.subrange(a as int, b as int));
    }
    r
}

/// Does this trimmed line open the AC section?
fn is_ac_marker(line: &str) -> (r: bool)
    ensures
        r == spec_is_ac_marker(line@),
{
    if line.unicode_len() != 3 {
        return false;
    }
    let c0 = line.get_char(0);
    let c1 = line.get_char(1);
    let c2 = line.get_char(2);
    c0 == '@' && (c1 == 'a' || c1 == 'A') && (c2 == 'c' || c2 == 'C')
}

/// Does this trimmed line open the battery section?
fn is_battery_marker(line: &str) -> (r: bool)
    ensures
        r == spec_is_battery_marker(line@),
{
    if line.unicode_len() != 8 {
        return false;
    }
    let c0 = line.get_char(0);
    let c1 = line.get_char(1);
    let c2 = line.get_char(2);
    let c3 = line.get_char(3);
    let c4 = line.get_char(4);
    let c5 = line.get_char(5);
    let c6 = line.get_char(6);
    let c7 = line.get_char(7);
    c0 == '@' && (c1 == 'b' || c1 == 'B') && (c2 == 'a' || c2 == 'A') && (c3 == 't' || c3 == 'T')
        && (c4 == 't' || c4 == 'T') && (c5 == 'e' || c5 == 'E') && (c6 == 'r' || c6 == 'R') && (c7
        == 'y' || c7 == 'Y')
}

/// Split a configuration text at newlines into trimmed, non-empty lines.
fn config_lines<'a>(text: &'a str) -> (r: Vec<&'a str>)
    ensures
        r.deep_view() == spec_config_lines(text@),
{
    let n = text.unicode_len();
    let mut i: usize = 0;
    let mut line_start: usize = 0;
    let mut out: Vec<&'a str> = Vec::new();
    proof {
        assert(text@.subrange(0, n as int) =~= text@);
        assert(text@.subrange(0, 0) =~= Seq::<char>::empty());
        assert(out.deep_view() =~= Seq::<Seq<char>>::empty());
    }
    while i < n
        invariant
            line_start <= i <= n,
            n == text@.len(),
            out.deep_view() + spec_config_lines_from(
                text@.subrange(i as int, n as int),
                text@.subrange(line_start as int, i as int),
            ) == spec_config_lines(text@),
        decreases n - i,
    {
        let ghost rest = text@.subrange(i as int, n as int);
        let ghost cur = text@.subrange(line_start as int, i as int);
        proof {
            assert(rest[0] == text@[i as int]);
            assert(rest.drop_first() =~= text@.subrange(i as int + 1, n as int));
        }
        let c = text.get_char(i);
        if c == '\n' {
            let line = trim_str(text.substring_char(line_start, i));
            if line.unicode_len() > 0 {
                let ghost old_out = out.deep_view();
                out.push(line);
                proof {
                    assert(out.deep_view() =~= old_out.push(line@));
                    assert(old_out.push(line@) + spec_config_lines_from(
                        rest.drop_first(),
                        Seq::empty(),
                    ) =~= old_out + (seq![line@] + spec_config_lines_from(
                        rest.drop_first(),
                        Seq::empty(),
                    )));
                }
            }
            line_start = i + 1;
            proof {
                assert(text@.subrange(line_start as int, i as int + 1) =~= Seq::<char>::empty());
            }
        } else {
            proof {
                assert(text@.subrange(line_start as int, i as int + 1) =~= cur.push(
                    text@[i as int],
                ));
            }
        }
        i = i + 1;
    }
    proof {
        assert(text@.subrange(i as int, n as int) =~= Seq::<char>::empty());
    }
    let line = trim_str(text.substring_char(line_start, n));
    if line.unicode_len() > 0 {
        let ghost old_out = out.deep_view();
        out.push(line);
        proof {
            assert(out.deep_view() =~= old_out.push(line@));
            assert(old_out.push(line@) =~= old_out + seq![line@]);
        }
    } else {
        proof {
            assert(out.deep_view() + Seq::<Seq<char>>::empty() =~= out.deep_view());
        }
    }
    out
}

impl Config {
    /// Parse a configuration text into its two command lists.  Parsing
    /// always succeeds: a bad line is skipped, not fatal.
    pub fn parse_config(config_text: &str) -> (r: Result<Config, LoadError>)
        ensures
            r is Ok,
            r matches Ok(config) ==> config@ == spec_parse(config_text@),
    {
        let lines = config_lines(config_text);
        let m = lines.len();
        let mut mode = ParseMode::NoSection;
        let mut ac: Vec<ShellCommand> = Vec::new();
        let mut bat: Vec<ShellCommand> = Vec::new();
        let mut j: usize = 0;
        proof {
            assert(lines.deep_view().subrange(0, m as int) =~= lines.deep_view());
            assert(ac.deep_view() =~= Seq::<ShellCommandView>::empty());
            assert(bat.deep_view() =~= Seq::<ShellCommandView>::empty());
        }
        while j < m
            invariant
                j <= m,
                m == lines@.len(),
                spec_parse_lines(
                    lines.deep_view().subrange(j as int, m as int),
                    mode,
                    ac.deep_view(),
                    bat.deep_view(),
                ) == spec_parse(config_text@),
            decreases m - j,
        {
            let ghost rest = lines.deep_view().subrange(j as int, m as int);
            proof {
                assert(rest[0] == lines.deep_view()[j as int]);
                assert(rest.drop_first() =~= lines.deep_view().subrange(j as int + 1, m as int));
            }
            let line = lines[j];
            if is_ac_marker(line) {
                mode = ParseMode::AcSection;
            } else if is_battery_marker(line) {
                mode = ParseMode::BatterySection;
            } else {
                match mode {
                    ParseMode::NoSection => {},
                    ParseMode::AcSection => {
                        match ShellCommand::try_from(line) {
                            Ok(cmd) => {
                                let ghost old_ac = ac.deep_view();
                                let ghost cmd_view = cmd@;
                                ac.push(cmd);
                                proof {
                                    assert(ac.deep_view() =~= old_ac.push(cmd_view));
                                }
                            },
                            Err(_) => {},
                        }
                    },
                    ParseMode::BatterySection => {
                        match ShellCommand::try_from(line) {
                            Ok(cmd) => {
                                let ghost old_bat = bat.deep_view();
                                let ghost cmd_view = cmd@;
                                bat.push(cmd);
                                proof {
                                    assert(bat.deep_view() =~= old_bat.push(cmd_view));
                                }
                            },
                            Err(_) => {},
                        }
                    },
                }
            }
            j = j + 1;
        }
        proof {
            assert(lines.deep_view().subrange(j as int, m as int) =~= Seq::<Seq<char>>::empty());
        }
        Ok(Config { on_ac_cmds: ac, on_bat_cmds: bat })
    }
}

} // verus!
