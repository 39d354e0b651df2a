//! What the user may have meant to type.
use crate::order::{sort_texts, sorted_texts, sorting_orders_texts, text_le};
use crate::text::{
    chars_of, find_last, last_index, last_place_is_last, same_text, starts_with, string_of, text2, text3,
};
use vstd::prelude::*;
use vstd::string::*;

verus! {

/// The suggestions that the user goes through.
#[derive(Clone, Debug)]
pub struct AutocompleteState {
    pub matches: Vec<String>,
    pub index: usize,
}

/// What is suggested behind a command.
#[derive(Clone, Copy, Debug, PartialEq, Eq, Structural)]
pub enum AutocompleteAction {
    Path,
    Directory,
}

/// A command that paths are suggested behind.
pub struct AutocompleteRule {
    pub prefix: &'static str,
    pub action: AutocompleteAction,
}

/// What a directory holds.
#[derive(Debug, Clone)]
pub struct DirEntry {
    pub file_name: String,
    pub is_dir: bool,
}

/// What a directory holds, as a value.
pub ghost struct EntryView {
    pub file_name: Seq<char>,
    pub is_dir: bool,
}

impl DeepView for DirEntry {
    type V = EntryView;

    open spec fn deep_view(&self) -> EntryView {
        EntryView { file_name: self.file_name@, is_dir: self.is_dir }
    }
}

/// The commands, each as it is typed before what follows it.
pub open spec fn commands() -> Seq<Seq<char>> {
    seq![
        "/send "@,
        "/save_dir "@,
        "/accept "@,
        "/decline"@,
        "/connect "@,
        "/ttl "@,
        "/clear"@,
        "/whoami"@,
    ]
}

/// Whether the user is typing the name of a command.
pub open spec fn names_command(input: Seq<char>) -> bool {
    "/"@.is_prefix_of(input) && !input.contains(' ')
}

/// The command that a path is being typed behind.
pub ghost struct RuleView {
    pub prefix: Seq<char>,
    pub action: AutocompleteAction,
}

/// The rule for what is being typed.
pub open spec fn rule_for(input: Seq<char>) -> Option<RuleView> {
    if "/send "@.is_prefix_of(input) {
        Some(RuleView { prefix: "/send "@, action: AutocompleteAction::Path })
    } else if "/save_dir "@.is_prefix_of(input) {
        Some(RuleView { prefix: "/save_dir "@, action: AutocompleteAction::Directory })
    } else if "/accept "@.is_prefix_of(input) {
        Some(RuleView { prefix: "/accept "@, action: AutocompleteAction::Path })
    } else {
        None
    }
}

/// How much of a path is its directory: up to the last slash, or the last backslash where
/// there is no slash.
pub open spec fn dir_len(path: Seq<char>) -> int {
    match last_index(path, '/') {
        Some(i) => i + 1,
        None => match last_index(path, '\\') {
            Some(i) => i + 1,
            None => 0,
        },
    }
}

/// The directory to look into for a path: the one that is typed, with the home directory in
/// place of a tilde that it starts with; the current one where none is typed.
pub open spec fn dir_to_read(path: Seq<char>, home: Option<Seq<char>>) -> Seq<char> {
    let dir = path.take(dir_len(path));
    if dir.len() == 0 {
        "."@
    } else if dir[0] == '~' && home is Some {
        let expanded = home->0 + dir.skip(1);
        if expanded.len() == 0 {
            "."@
        } else {
            expanded
        }
    } else {
        dir
    }
}

/// Whether an entry is suggested for what is typed of its name. Hidden ones are only where
/// the user types the dot.
pub open spec fn suggested(entry: EntryView, action: AutocompleteAction, typed: Seq<char>) -> bool {
    &&& action == AutocompleteAction::Directory ==> entry.is_dir
    &&& "."@.is_prefix_of(entry.file_name) ==> "."@.is_prefix_of(typed)
    &&& typed.is_prefix_of(entry.file_name)
}

/// An entry as it is suggested: behind what stands before it, and a directory with a slash.
pub open spec fn suggestion(entry: EntryView, before: Seq<char>) -> Seq<char> {
    if entry.is_dir {
        before + entry.file_name + "/"@
    } else {
        before + entry.file_name
    }
}

/// The entries that are suggested.
pub open spec fn suggested_entries(
    entries: Seq<EntryView>,
    action: AutocompleteAction,
    typed: Seq<char>,
    before: Seq<char>,
) -> Seq<Seq<char>>
    decreases entries.len(),
{
    if entries.len() == 0 {
        seq![]
    } else {
        let rest = suggested_entries(entries.drop_last(), action, typed, before);
        if suggested(entries.last(), action, typed) {
            rest.push(suggestion(entries.last(), before))
        } else {
            rest
        }
    }
}

/// The directories that every directory has.
pub open spec fn dot_entries(typed: Seq<char>, before: Seq<char>) -> Seq<Seq<char>> {
    if typed == "."@ {
        seq![before + "./"@]
    } else if typed == ".."@ {
        seq![before + "../"@]
    } else {
        seq![]
    }
}

/// What is suggested for what the user typed, where the directory holds the given entries.
pub open spec fn suggestions(input: Seq<char>, entries: Seq<EntryView>) -> Seq<Seq<char>> {
    if names_command(input) {
        commands().filter(|command: Seq<char>| input.is_prefix_of(command))
    } else {
        match rule_for(input) {
            Some(rule) => {
                let path = input.skip(rule.prefix.len() as int);
                let before = rule.prefix + path.take(dir_len(path));
                let typed = path.skip(dir_len(path));
                sorted_texts(
                    dot_entries(typed, before) + suggested_entries(entries, rule.action, typed, before),
                )
            },
            None => seq![],
        }
    }
}

/// The directory that suggestions for what the user typed come from, if they come from one.
pub open spec fn suggestion_dir(input: Seq<char>, home: Option<Seq<char>>) -> Option<Seq<char>> {
    if names_command(input) {
        None
    } else {
        match rule_for(input) {
            Some(rule) => Some(dir_to_read(input.skip(rule.prefix.len() as int), home)),
            None => None,
        }
    }
}

fn is_command_name(input: &str) -> (res: bool)
    ensures
        res == names_command(input@),
{
    if !starts_with(input, "/") {
        return false;
    }
    let chars = chars_of(input);
    let space = find_last(&chars, ' ');
    proof {
        lemma_last_index(input@, ' ');
    }
    space.is_none()
}

proof fn lemma_last_index(s: Seq<char>, c: char)
    ensures
        last_index(s, c) is Some <==> s.contains(c),
        last_index(s, c) matches Some(i) ==> 0 <= i < s.len(),
    decreases s.len(),
{
    if s.len() > 0 {
        let rest = s.drop_last();
        lemma_last_index(rest, c);
        if rest.contains(c) {
            let i = choose|i: int| 0 <= i < rest.len() && rest[i] == c;
            assert(s[i] == c);
        }
        if s.contains(c) && s.last() != c {
            let i = choose|i: int| 0 <= i < s.len() && s[i] == c;
            assert(rest[i] == c);
        }
        if s.last() == c {
            assert(s[s.len() - 1] == c);
        }
    }
}

fn find_rule(input: &str) -> (res: Option<AutocompleteRule>)
    ensures
        match (res, rule_for(input@)) {
            (Some(rule), Some(view)) => rule.prefix@ == view.prefix && rule.action == view.action
                && rule.prefix@.is_prefix_of(input@),
            (None, None) => true,
            _ => false,
        },
{
    if starts_with(input, "/send ") {
        return Some(AutocompleteRule { prefix: "/send ", action: AutocompleteAction::Path });
    }
    if starts_with(input, "/save_dir ") {
        return Some(AutocompleteRule { prefix: "/save_dir ", action: AutocompleteAction::Directory });
    }
    if starts_with(input, "/accept ") {
        return Some(AutocompleteRule { prefix: "/accept ", action: AutocompleteAction::Path });
    }
    None
}

/// What is typed behind a command: the directory, and the start of a name.
fn split_path(input: &str, prefix: &str) -> (res: (String, String))
    requires
        prefix@.is_prefix_of(input@),
    ensures
        ({
            let path = input@.skip(prefix@.len() as int);
            &&& res.0@ == path.take(dir_len(path))
            &&& res.1@ == path.skip(dir_len(path))
        }),
{
    let from: usize = prefix.unicode_len();
    let to: usize = input.unicode_len();
    let rest = input.substring_char(from, to);
    assert(rest@ =~= input@.skip(from as int));
    let path = chars_of(rest);
    proof {
        lemma_last_index(path@, '/');
        lemma_last_index(path@, '\\');
    }
    let len: usize = match find_last(&path, '/') {
        Some(i) => i + 1,
        None => match find_last(&path, '\\') {
            Some(i) => i + 1,
            None => 0,
        },
    };
    let dir = string_of(&path, 0, len);
    let typed = string_of(&path, len, path.len());
    assert(dir@ =~= path@.take(len as int));
    assert(typed@ =~= path@.skip(len as int));
    (dir, typed)
}

/// Names the directory that suggestions come from.
pub fn completion_dir(input: &str, home: Option<String>) -> (res: Option<String>)
    ensures
        res.deep_view() == suggestion_dir(input@, home.deep_view()),
{
    if is_command_name(input) {
        return None;
    }
    let rule = match find_rule(input) {
        Some(rule) => rule,
        None => return None,
    };
    let (dir, _) = split_path(input, rule.prefix);
    if dir.as_str().is_empty() {
        return Some(".".to_owned());
    }
    if let Some(home_dir) = home {
        if dir.as_str().get_char(0) == '~' {
            let len: usize = dir.as_str().unicode_len();
            let rest = dir.as_str().substring_char(1, len);
            assert(rest@ =~= dir@.skip(1));
            let expanded = text2(home_dir.as_str(), rest);
            if expanded.as_str().is_empty() {
                return Some(".".to_owned());
            }
            return Some(expanded);
        }
    }
    Some(dir)
}

fn command_list() -> (res: Vec<String>)
    ensures
        res.deep_view() == commands(),
{
    let mut out: Vec<String> = Vec::new();
    out.push("/send ".to_owned());
    out.push("/save_dir ".to_owned());
    out.push("/accept ".to_owned());
    out.push("/decline".to_owned());
    out.push("/connect ".to_owned());
    out.push("/ttl ".to_owned());
    out.push("/clear".to_owned());
    out.push("/whoami".to_owned());
    assert(out.deep_view() =~= commands());
    out
}

fn command_matches(input: &str) -> (res: Vec<String>)
    ensures
        res.deep_view() == commands().filter(|command: Seq<char>| input@.is_prefix_of(command)),
{
    let list = command_list();
    let ghost all = commands();
    let ghost keep = |command: Seq<char>| input@.is_prefix_of(command);
    let mut out: Vec<String> = Vec::new();
    let mut i: usize = 0;
    proof {
        reveal(Seq::filter);
        assert(out.deep_view() =~= all.take(0).filter(keep));
    }
    while i < list.len()
        invariant
            i <= list@.len(),
            all == list.deep_view(),
            keep == (|command: Seq<char>| input@.is_prefix_of(command)),
            out.deep_view() == all.take(i as int).filter(keep),
        decreases list@.len() - i,
    {
        let ghost before = out.deep_view();
        proof {
            reveal(Seq::filter);
            assert(all.take(i + 1).drop_last() =~= all.take(i as int));
            assert(all.take(i + 1).last() == list@[i as int]@);
        }
        if starts_with(list[i].as_str(), input) {
            out.push(list[i].clone());
            assert(out.deep_view() =~= before.push(list@[i as int]@));
        }
        i = i + 1;
    }
    assert(all.take(i as int) =~= all);
    out
}

fn is_suggested(entry: &DirEntry, action: AutocompleteAction, typed: &str) -> (res: bool)
    ensures
        res == suggested(entry.deep_view(), action, typed@),
{
    if action == AutocompleteAction::Directory && !entry.is_dir {
        return false;
    }
    if starts_with(entry.file_name.as_str(), ".") && !starts_with(typed, ".") {
        return false;
    }
    starts_with(entry.file_name.as_str(), typed)
}

/// Lists what is suggested for what the user typed. The entries are those of the directory
/// that suggestions come from, if there is one.
pub fn get_autocomplete_matches(input: &str, entries: &Vec<DirEntry>) -> (res: Vec<String>)
    ensures
        res.deep_view() == suggestions(input@, entries.deep_view()),
{
    if is_command_name(input) {
        return command_matches(input);
    }
    let rule = match find_rule(input) {
        Some(rule) => rule,
        None => {
            let none: Vec<String> = Vec::new();
            assert(none.deep_view() =~= seq![]);
            return none;
        },
    };
    let (dir, typed) = split_path(input, rule.prefix);
    let before = text2(rule.prefix, dir.as_str());
    let mut matches: Vec<String> = Vec::new();
    proof {
        reveal_strlit(".");
        reveal_strlit("..");
        assert("."@.len() != ".."@.len());
    }
    if same_text(typed.as_str(), ".") {
        matches.push(text2(before.as_str(), "./"));
    }
    if same_text(typed.as_str(), "..") {
        matches.push(text2(before.as_str(), "../"));
    }
    let ghost dots = dot_entries(typed@, before@);
    let ghost all = entries.deep_view();
    assert(matches.deep_view() =~= dots);
    assert(matches.deep_view() =~= dots + suggested_entries(all.take(0), rule.action, typed@, before@));
    let mut i: usize = 0;
    while i < entries.len()
        invariant
            i <= entries@.len(),
            all == entries.deep_view(),
            matches.deep_view() == dots + suggested_entries(all.take(i as int), rule.action, typed@, before@),
        decreases entries@.len() - i,
    {
        proof {
            assert(all.take(i + 1).drop_last() =~= all.take(i as int));
            assert(all.take(i + 1).last() == entries@[i as int].deep_view());
        }
        if is_suggested(&entries[i], rule.action, typed.as_str()) {
            let ghost earlier = matches.deep_view();
            let text = if entries[i].is_dir {
                text3(before.as_str(), entries[i].file_name.as_str(), "/")
            } else {
                text2(before.as_str(), entries[i].file_name.as_str())
            };
            let ghost view = text@;
            matches.push(text);
            assert(matches.deep_view() =~= earlier.push(view));
            assert(matches.deep_view() =~= dots + suggested_entries(
                all.take(i + 1),
                rule.action,
                typed@,
                before@,
            ));
        }
        i = i + 1;
    }
    assert(all.take(i as int) =~= all);
    sort_texts(&matches)
}

proof fn lemma_entry_continues(
    entries: Seq<EntryView>,
    action: AutocompleteAction,
    typed: Seq<char>,
    before: Seq<char>,
    text: Seq<char>,
)
    requires
        suggested_entries(entries, action, typed, before).contains(text),
    ensures
        (before + typed).is_prefix_of(text),
    decreases entries.len(),
{
    if entries.len() > 0 {
        let rest = suggested_entries(entries.drop_last(), action, typed, before);
        let last = entries.last();
        let shown = suggested_entries(entries, action, typed, before);
        let i = choose|i: int| 0 <= i < shown.len() && shown[i] == text;
        if i < rest.len() {
            assert(rest[i] == text);
            lemma_entry_continues(entries.drop_last(), action, typed, before, text);
        } else {
            assert(text == suggestion(last, before));
            assert((before + typed) =~= text.subrange(0, (before + typed).len() as int));
        }
    }
}

/// Whatever is suggested goes on from what the user typed.
pub proof fn suggestions_continue_input(input: Seq<char>, entries: Seq<EntryView>, text: Seq<char>)
    requires
        suggestions(input, entries).contains(text),
    ensures
        input.is_prefix_of(text),
{
    broadcast use vstd::seq_lib::group_filter_ensures;

    if names_command(input) {
        let keep = |command: Seq<char>| input.is_prefix_of(command);
        let shown = commands().filter(keep);
        let i = choose|i: int| 0 <= i < shown.len() && shown[i] == text;
        assert(keep(shown[i]));
    } else {
        let rule = rule_for(input)->0;
        let path = input.skip(rule.prefix.len() as int);
        lemma_last_index(path, '/');
        lemma_last_index(path, '\\');
        let before = rule.prefix + path.take(dir_len(path));
        let typed = path.skip(dir_len(path));
        assert(input =~= before + typed);
        let dots = dot_entries(typed, before);
        let shown = suggested_entries(entries, rule.action, typed, before);
        sorting_orders_texts(dots + shown);
        assert((dots + shown).contains(text));
        let i = choose|i: int| 0 <= i < (dots + shown).len() && (dots + shown)[i] == text;
        if i < dots.len() {
            reveal_strlit(".");
            reveal_strlit("..");
            reveal_strlit("./");
            reveal_strlit("../");
            assert((before + typed) =~= text.subrange(0, (before + typed).len() as int));
        } else {
            assert(shown[i - dots.len()] == text);
            lemma_entry_continues(entries, rule.action, typed, before, text);
        }
    }
}

/// Whether a path is cut where its directory ends: at its last slash, or, where it has none, at
/// its last backslash.
pub open spec fn cut_at_directory(dir: Seq<char>, name: Seq<char>) -> bool {
    ||| dir.len() > 0 && dir.last() == '/' && !name.contains('/')
    ||| dir.len() > 0 && dir.last() == '\\' && !dir.contains('/') && !name.contains('/') && !name.contains('\\')
    ||| dir.len() == 0 && !name.contains('/') && !name.contains('\\')
}

/// The directory of a path ends where it is cut so.
pub proof fn directory_ends_at_last_slash(dir: Seq<char>, name: Seq<char>)
    requires
        cut_at_directory(dir, name),
    ensures
        dir_len(dir + name) == dir.len(),
{
    let path = dir + name;
    last_place_is_last(path, '/');
    last_place_is_last(path, '\\');
    assert forall|i: int| 0 <= i < name.len() implies #[trigger] name[i] == path[dir.len() + i] && name.contains(
        name[i],
    ) by {
    }
    assert forall|i: int| 0 <= i < dir.len() implies #[trigger] dir[i] == path[i] && dir.contains(dir[i]) by {
    }
    if dir.len() > 0 {
        assert(path[dir.len() - 1] == dir.last());
    }
    if let Some(i) = last_index(path, '/') {
        if i >= dir.len() {
            assert(path[i] == name[i - dir.len()]);
        } else {
            assert(path[i] == dir[i]);
        }
    }
    if let Some(i) = last_index(path, '\\') {
        if i >= dir.len() {
            assert(path[i] == name[i - dir.len()]);
        } else {
            assert(path[i] == dir[i]);
        }
    }
}

/// Suggestions for a path come from the directory that is typed before its name, with the
/// home directory, where it is known, in place of a tilde that it starts with, and from the
/// current one where none is typed. The three commands that take a path are alike in this.
pub proof fn suggestions_come_from_typed_directory(
    command: Seq<char>,
    dir: Seq<char>,
    name: Seq<char>,
    home: Option<Seq<char>>,
)
    requires
        command == "/send "@ || command == "/save_dir "@ || command == "/accept "@,
        cut_at_directory(dir, name),
    ensures
        ({
            let read = suggestion_dir(command + dir + name, home);
            &&& read is Some
            &&& dir.len() == 0 ==> read == Some("."@)
            &&& dir.len() > 0 && dir[0] != '~' ==> read == Some(dir)
            &&& dir.len() > 0 && home is None ==> read == Some(dir)
            &&& dir.len() > 1 && dir[0] == '~' && home is Some ==> read == Some(home->0 + dir.skip(1))
        }),
{
    lemma_rule_for_command(command, dir + name);
    let input = command + dir + name;
    assert(input =~= command + (dir + name));
    directory_ends_at_last_slash(dir, name);
    assert(input.skip(command.len() as int) =~= dir + name);
    assert((dir + name).take(dir.len() as int) =~= dir);
}

proof fn lemma_rule_for_command(command: Seq<char>, rest: Seq<char>)
    requires
        command == "/send "@ || command == "/save_dir "@ || command == "/accept "@,
    ensures
        !names_command(command + rest),
        rule_for(command + rest) == Some(
            RuleView {
                prefix: command,
                action: if command == "/save_dir "@ {
                    AutocompleteAction::Directory
                } else {
                    AutocompleteAction::Path
                },
            },
        ),
{
    reveal_strlit("/send ");
    reveal_strlit("/save_dir ");
    reveal_strlit("/accept ");
    let input = command + rest;
    assert(command =~= input.subrange(0, command.len() as int));
    assert(input[command.len() - 1] == ' ');
    assert(input.contains(' '));
    assert(input[1] == command[1] && input[2] == command[2]);
    if "/send "@.is_prefix_of(input) {
        assert("/send "@[2] == input[2] && "/send "@[1] == input[1]);
    }
    if "/save_dir "@.is_prefix_of(input) {
        assert("/save_dir "@[1] == input[1]);
    }
}

proof fn lemma_entry_is_among(
    entries: Seq<EntryView>,
    action: AutocompleteAction,
    typed: Seq<char>,
    before: Seq<char>,
    text: Seq<char>,
)
    ensures
        suggested_entries(entries, action, typed, before).contains(text) <==> exists|k: int|
            0 <= k < entries.len() && suggested(#[trigger] entries[k], action, typed) && suggestion(entries[k], before)
                == text,
    decreases entries.len(),
{
    if entries.len() > 0 {
        let shorter = entries.drop_last();
        lemma_entry_is_among(shorter, action, typed, before, text);
        let rest = suggested_entries(shorter, action, typed, before);
        let all = suggested_entries(entries, action, typed, before);
        if all.contains(text) {
            let i = choose|i: int| 0 <= i < all.len() && all[i] == text;
            if i < rest.len() {
                assert(rest[i] == text);
                let k = choose|k: int|
                    0 <= k < shorter.len() && suggested(#[trigger] shorter[k], action, typed) && suggestion(
                        shorter[k],
                        before,
                    ) == text;
                assert(entries[k] == shorter[k]);
            } else {
                assert(entries[entries.len() - 1] == entries.last());
            }
        }
        if exists|k: int|
            0 <= k < entries.len() && suggested(#[trigger] entries[k], action, typed) && suggestion(entries[k], before)
                == text {
            let k = choose|k: int|
                0 <= k < entries.len() && suggested(#[trigger] entries[k], action, typed) && suggestion(
                    entries[k],
                    before,
                ) == text;
            if k < shorter.len() {
                assert(shorter[k] == entries[k]);
                let i = choose|i: int| 0 <= i < rest.len() && rest[i] == text;
                assert(all[i] == text);
            } else {
                assert(all[all.len() - 1] == text);
            }
        }
    }
}

/// Behind a command that takes a path exactly these are suggested: each entry of the directory
/// whose name goes on from what is typed of it, unless it is hidden and no dot is typed, or is no
/// directory where only one will do; and the directory itself and the one above for one and two
/// dots. Each stands behind the command and the directory as they were typed, a directory with a
/// slash behind it, and they are in ascending order.
pub proof fn entries_are_suggested(
    command: Seq<char>,
    dir: Seq<char>,
    typed: Seq<char>,
    entries: Seq<EntryView>,
    text: Seq<char>,
)
    requires
        command == "/send "@ || command == "/save_dir "@ || command == "/accept "@,
        cut_at_directory(dir, typed),
    ensures
        suggestions(command + dir + typed, entries).contains(text) <==> {
            ||| typed == "."@ && text == command + dir + "./"@
            ||| typed == ".."@ && text == command + dir + "../"@
            ||| exists|k: int|
                0 <= k < entries.len() && typed.is_prefix_of((#[trigger] entries[k]).file_name) && (command
                    == "/save_dir "@ ==> entries[k].is_dir) && ("."@.is_prefix_of(entries[k].file_name)
                    ==> "."@.is_prefix_of(typed)) && text == command + dir + entries[k].file_name + (if entries[k].is_dir {
                    "/"@
                } else {
                    seq![]
                })
        },
        forall|i: int, j: int|
            0 <= i <= j < suggestions(command + dir + typed, entries).len() ==> text_le(
                #[trigger] suggestions(command + dir + typed, entries)[i],
                #[trigger] suggestions(command + dir + typed, entries)[j],
            ),
{
    let input = command + dir + typed;
    assert(input =~= command + (dir + typed));
    lemma_rule_for_command(command, dir + typed);
    directory_ends_at_last_slash(dir, typed);
    let path = dir + typed;
    assert(input.skip(command.len() as int) =~= path);
    assert(path.take(dir.len() as int) =~= dir);
    assert(path.skip(dir.len() as int) =~= typed);
    let before = command + dir;
    let action = rule_for(input)->0.action;
    let dots = dot_entries(typed, before);
    let shown = suggested_entries(entries, action, typed, before);
    let all = dots + shown;
    assert(suggestions(input, entries) == sorted_texts(all));
    sorting_orders_texts(all);
    lemma_entry_is_among(entries, action, typed, before, text);
    reveal_strlit(".");
    reveal_strlit("..");
    assert("."@ != ".."@) by {
        assert("."@.len() != ".."@.len());
    }
    assert(all.contains(text) <==> dots.contains(text) || shown.contains(text)) by {
        if all.contains(text) {
            let i = choose|i: int| 0 <= i < all.len() && all[i] == text;
            if i < dots.len() {
                assert(dots[i] == text);
            } else {
                assert(shown[i - dots.len()] == text);
            }
        }
        if dots.contains(text) {
            let i = choose|i: int| 0 <= i < dots.len() && dots[i] == text;
            assert(all[i] == text);
        }
        if shown.contains(text) {
            let i = choose|i: int| 0 <= i < shown.len() && shown[i] == text;
            assert(all[dots.len() + i] == text);
        }
    }
    assert(dots.contains(text) <==> typed == "."@ && text == before + "./"@ || typed == ".."@ && text == before
        + "../"@) by {
        if dots.contains(text) {
            let i = choose|i: int| 0 <= i < dots.len() && dots[i] == text;
        }
        if typed == "."@ && text == before + "./"@ || typed == ".."@ && text == before + "../"@ {
            assert(dots[0] == text);
        }
    }
    assert forall|k: int| 0 <= k < entries.len() implies suggestion(#[trigger] entries[k], before) == before
        + entries[k].file_name + (if entries[k].is_dir {
        "/"@
    } else {
        seq![]
    }) by {
        assert(before + entries[k].file_name + Seq::<char>::empty() =~= before + entries[k].file_name);
    }
}

/// While the name of a command is typed, exactly the commands that go on from it are suggested,
/// in a fixed order, and no directory is read.
pub proof fn commands_are_suggested(input: Seq<char>, entries: Seq<EntryView>, home: Option<Seq<char>>, text: Seq<char>)
    requires
        input.len() > 0,
        input[0] == '/',
        !input.contains(' '),
    ensures
        suggestions(input, entries).contains(text) <==> input.is_prefix_of(text) && (text == "/send "@ || text
            == "/save_dir "@ || text == "/accept "@ || text == "/decline"@ || text == "/connect "@ || text == "/ttl "@
            || text == "/clear"@ || text == "/whoami"@),
        suggestions(input, entries) == seq![
            "/send "@,
            "/save_dir "@,
            "/accept "@,
            "/decline"@,
            "/connect "@,
            "/ttl "@,
            "/clear"@,
            "/whoami"@,
        ].filter(|command: Seq<char>| input.is_prefix_of(command)),
        suggestion_dir(input, home) is None,
{
    broadcast use vstd::seq_lib::group_filter_ensures;

    reveal_strlit("/");
    assert("/"@ =~= input.subrange(0, 1));
    assert(names_command(input));
    let all = commands();
    let keep = |command: Seq<char>| input.is_prefix_of(command);
    let shown = all.filter(keep);
    if shown.contains(text) {
        all.lemma_filter_contains_rev(keep, text);
        let i = choose|i: int| 0 <= i < shown.len() && shown[i] == text;
        assert(keep(shown[i]));
        let k = choose|k: int| 0 <= k < all.len() && all[k] == text;
    }
    if input.is_prefix_of(text) {
        assert forall|k: int| 0 <= k < all.len() && all[k] == text implies shown.contains(text) by {
            all.lemma_filter_contains(keep, k);
        }
        assert(all[0] == "/send "@ && all[1] == "/save_dir "@ && all[2] == "/accept "@ && all[3] == "/decline"@ && all[4]
            == "/connect "@ && all[5] == "/ttl "@ && all[6] == "/clear"@ && all[7] == "/whoami"@);
    }
}

/// Where neither the name of a command nor a path behind one is typed, nothing is suggested.
pub proof fn nothing_is_suggested_elsewhere(input: Seq<char>, entries: Seq<EntryView>, home: Option<Seq<char>>)
    requires
        input.len() == 0 || input[0] != '/',
    ensures
        suggestions(input, entries).len() == 0,
        suggestion_dir(input, home) is None,
{
    reveal_strlit("/");
    reveal_strlit("/send ");
    reveal_strlit("/save_dir ");
    reveal_strlit("/accept ");
    if input.len() > 0 {
        assert("/"@.is_prefix_of(input) ==> "/"@[0] == input[0]);
        assert("/send "@.is_prefix_of(input) ==> "/send "@[0] == input[0]);
        assert("/save_dir "@.is_prefix_of(input) ==> "/save_dir "@[0] == input[0]);
        assert("/accept "@.is_prefix_of(input) ==> "/accept "@[0] == input[0]);
    }
}

/// Behind a command that takes no path nothing is suggested.
pub proof fn nothing_is_suggested_behind_others(input: Seq<char>, entries: Seq<EntryView>, home: Option<Seq<char>>)
    requires
        input.contains(' '),
        !"/send "@.is_prefix_of(input),
        !"/save_dir "@.is_prefix_of(input),
        !"/accept "@.is_prefix_of(input),
    ensures
        suggestions(input, entries).len() == 0,
        suggestion_dir(input, home) is None,
{
}

proof fn lemma_entries_one_by_one(
    entries: Seq<EntryView>,
    action: AutocompleteAction,
    typed: Seq<char>,
    before: Seq<char>,
)
    ensures
        suggested_entries(entries, action, typed, before).len() == entries.filter(
            |entry: EntryView| suggested(entry, action, typed),
        ).len(),
    decreases entries.len(),
{
    reveal(Seq::filter);
    if entries.len() > 0 {
        lemma_entries_one_by_one(entries.drop_last(), action, typed, before);
    }
}

/// Each entry of the directory that fits is suggested once.
pub proof fn entries_are_suggested_once(
    command: Seq<char>,
    dir: Seq<char>,
    typed: Seq<char>,
    entries: Seq<EntryView>,
)
    requires
        command == "/send "@ || command == "/save_dir "@ || command == "/accept "@,
        cut_at_directory(dir, typed),
    ensures
        suggestions(command + dir + typed, entries).len() == entries.filter(
            |entry: EntryView|
                typed.is_prefix_of(entry.file_name) && (command == "/save_dir "@ ==> entry.is_dir) && ("."@.is_prefix_of(
                    entry.file_name,
                ) ==> "."@.is_prefix_of(typed)),
        ).len() + (if typed == "."@ || typed == ".."@ {
            1nat
        } else {
            0nat
        }),
{
    let input = command + dir + typed;
    assert(input =~= command + (dir + typed));
    lemma_rule_for_command(command, dir + typed);
    directory_ends_at_last_slash(dir, typed);
    let path = dir + typed;
    assert(input.skip(command.len() as int) =~= path);
    assert(path.take(dir.len() as int) =~= dir);
    assert(path.skip(dir.len() as int) =~= typed);
    let before = command + dir;
    let action = rule_for(input)->0.action;
    let fits = |entry: EntryView|
        typed.is_prefix_of(entry.file_name) && (command == "/save_dir "@ ==> entry.is_dir) && ("."@.is_prefix_of(
            entry.file_name,
        ) ==> "."@.is_prefix_of(typed));
    let keep = |entry: EntryView| suggested(entry, action, typed);
    assert(fits =~= keep);
    lemma_entries_one_by_one(entries, action, typed, before);
    sorting_orders_texts(dot_entries(typed, before) + suggested_entries(entries, action, typed, before));
}

}
