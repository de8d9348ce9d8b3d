//! The settings file of the desktop client.

use crate::text;
use vstd::prelude::*;
use vstd::string::*;

verus! {

/// The key of the model in the settings file.
pub open spec fn model_key() -> Seq<char> {
    "default_text_model"@
}

/// How a line for a key begins.
pub open spec fn key_prefix(key: Seq<char>) -> Seq<char> {
    key + " = "@
}

/// The line that gives a key a value.
pub open spec fn setting_line(key: Seq<char>, value: Seq<char>) -> Seq<char> {
    key + " = \""@ + value + "\""@
}

/// Whether a line gives a key a value; it may be indented.
pub open spec fn sets_key(line: Seq<char>, key: Seq<char>) -> bool {
    text::has_prefix(text::trimmed_start(line), key_prefix(key))
}

/// The lines of a settings file after a key got a value: every line for the key is replaced, and
/// where there is none, one is added at the end.
pub open spec fn updated_lines(lines: Seq<Seq<char>>, key: Seq<char>, value: Seq<char>) -> Seq<
    Seq<char>,
> {
    let replaced = lines.map_values(
        |line: Seq<char>|
            if sets_key(line, key) {
                setting_line(key, value)
            } else {
                line
            },
    );
    if exists|i: int| 0 <= i < lines.len() && sets_key(#[trigger] lines[i], key) {
        replaced
    } else {
        replaced.push(setting_line(key, value))
    }
}

/// A text of lines, each of which ends with a newline.
pub open spec fn joined_lines(lines: Seq<Seq<char>>) -> Seq<char>
    decreases lines.len(),
{
    if lines.len() == 0 {
        seq![]
    } else {
        joined_lines(lines.drop_last()) + lines.last().push('\n')
    }
}

/// A settings file after a key got a value.
pub open spec fn updated_text(content: Seq<char>, key: Seq<char>, value: Seq<char>) -> Seq<char> {
    joined_lines(updated_lines(text::lines_of(content), key, value))
}

/// A settings file in which every line for a key is replaced by one with the new value; where
/// there is no such line, one is added at the end.
pub fn update_or_insert_line(content: &str, key: &str, value: &str) -> (r: String)
    ensures
        r@ == updated_text(content@, key@, value@),
{
    let mut prefix: String = key.to_string();
    prefix.append(" = ");
    let mut new_line: String = key.to_string();
    new_line.append(" = \"");
    new_line.append(value);
    new_line.append("\"");
    assert(new_line@ =~= setting_line(key@, value@));
    let lines: Vec<String> = text::lines(content);
    let ghost views = text::lines_of(content@);
    let ghost replaced = views.map_values(
        |line: Seq<char>|
            if sets_key(line, key@) {
                setting_line(key@, value@)
            } else {
                line
            },
    );
    let mut found: bool = false;
    let mut result: String = String::new();
    let mut i: usize = 0;
    assert(replaced.take(0) =~= Seq::<Seq<char>>::empty());
    assert(result@ =~= Seq::<char>::empty());
    while i < lines.len()
        invariant
            i <= lines@.len(),
            views == text::texts(lines@),
            replaced == views.map_values(
                |line: Seq<char>|
                    if sets_key(line, key@) {
                        setting_line(key@, value@)
                    } else {
                        line
                    },
            ),
            prefix@ == key_prefix(key@),
            new_line@ == setting_line(key@, value@),
            found == exists|k: int| 0 <= k < i && sets_key(#[trigger] views[k], key@),
            result@ == joined_lines(replaced.take(i as int)),
        decreases lines@.len() - i,
    {
        assert(views[i as int] == lines@[i as int]@);
        assert(replaced.take(i + 1).drop_last() =~= replaced.take(i as int));
        let line: &str = lines[i].as_str();
        let ghost before = result@;
        let matched: bool = text::starts_with(text::trim_start(line), prefix.as_str());
        assert(matched == sets_key(views[i as int], key@));
        if matched {
            result.append(new_line.as_str());
            found = true;
        } else {
            result.append(line);
        }
        result.push('\n');
        assert(result@ =~= before + replaced[i as int].push('\n'));
        i += 1;
    }
    assert(replaced.take(i as int) =~= replaced);
    if !found {
        let ghost before = result@;
        result.append(new_line.as_str());
        result.push('\n');
        assert(replaced.push(new_line@).drop_last() =~= replaced);
        assert(result@ =~= before + new_line@.push('\n'));
    }
    result
}

/// A new settings file.
pub open spec fn new_settings(api_key: Seq<char>, model: Seq<char>) -> Seq<char> {
    "api_key = \""@ + api_key + "\"\ndefault_text_model = \""@ + model + "\"\n"@
}

/// The settings file with a model: the existing file with the model in it, or a new file.
pub fn settings_file(existing: Option<&str>, api_key: &str, model: &str) -> (r: String)
    ensures
        r@ == (match existing {
            Some(content) => updated_text(content@, model_key(), model@),
            None => new_settings(api_key@, model@),
        }),
{
    match existing {
        Some(content) => update_or_insert_line(content, "default_text_model", model),
        None => {
            let mut content: String = "api_key = \"".to_string();
            content.append(api_key);
            content.append("\"\ndefault_text_model = \"");
            content.append(model);
            content.append("\"\n");
            assert(content@ =~= new_settings(api_key@, model@));
            content
        },
    }
}

/// A line that can stand in a file of lines: it holds no newline and does not end with a carriage
/// return.
pub open spec fn is_plain_line(line: Seq<char>) -> bool {
    !line.contains('\n') && (line.len() > 0 ==> line.last() != '\r')
}

/// Lines that are written one below the other are read back.
pub proof fn joined_lines_are_read_back(lines: Seq<Seq<char>>)
    requires
        forall|i: int| 0 <= i < lines.len() ==> is_plain_line(#[trigger] lines[i]),
    ensures
        text::lines_of(joined_lines(lines)) == lines,
    decreases lines.len(),
{
    if lines.len() == 0 {
        let none = joined_lines(lines);
        none.index_of_first_ensures('\n');
        assert(text::lines_of(none) =~= lines);
    } else {
        let rest = lines.drop_first();
        let first = lines[0];
        assert forall|i: int| 0 <= i < rest.len() implies is_plain_line(#[trigger] rest[i]) by {
            assert(is_plain_line(lines[i + 1]));
        }
        joined_lines_are_read_back(rest);
        lemma_joined_first(lines);
        let all = joined_lines(lines);
        assert(all =~= first.push('\n') + joined_lines(rest));
        all.index_of_first_ensures('\n');
        assert(is_plain_line(lines[0]));
        assert forall|j: int| 0 <= j < first.len() implies all[j] != '\n' by {
            assert(all[j] == first[j]);
            assert(first.contains(first[j]));
        }
        assert(all[first.len() as int] == '\n');
        assert(all.contains('\n'));
        assert(all.index_of_first('\n') == Some(first.len() as int));
        assert(all.take(first.len() as int) =~= first);
        assert(all.skip(first.len() as int + 1) =~= joined_lines(rest));
        assert(lines =~= seq![first] + rest);
    }
}

proof fn lemma_joined_first(lines: Seq<Seq<char>>)
    requires
        lines.len() > 0,
    ensures
        joined_lines(lines) == lines[0].push('\n') + joined_lines(lines.drop_first()),
    decreases lines.len(),
{
    if lines.len() == 1 {
        assert(lines.drop_last() =~= Seq::<Seq<char>>::empty());
        assert(lines.drop_first() =~= Seq::<Seq<char>>::empty());
        assert(joined_lines(lines) =~= lines[0].push('\n') + joined_lines(lines.drop_first()));
    } else {
        lemma_joined_first(lines.drop_last());
        assert(lines.drop_last().drop_first() =~= lines.drop_first().drop_last());
        assert(joined_lines(lines) =~= lines[0].push('\n') + joined_lines(lines.drop_first()));
    }
}

/// A key that a line can set: it does not start with whitespace, and it holds no newline.
pub open spec fn is_plain_key(key: Seq<char>) -> bool {
    key.len() > 0 && !text::is_white(key[0]) && !key.contains('\n')
}

/// After an update the file holds the line with the new value, every line for the key holds the
/// new value, and all other lines are as they were; updating again changes nothing. Line endings
/// apart, this holds of every file of which no line ends with a stray carriage return.
pub proof fn update_is_read_back(content: Seq<char>, key: Seq<char>, value: Seq<char>)
    requires
        is_plain_key(key),
        !value.contains('\n'),
        forall|i: int|
            0 <= i < text::lines_of(content).len() ==> is_plain_line(
                #[trigger] text::lines_of(content)[i],
            ),
    ensures
        ({
            let before = text::lines_of(content);
            let updated = updated_text(content, key, value);
            let after = text::lines_of(updated);
            &&& after == updated_lines(before, key, value)
            &&& after.contains(setting_line(key, value))
            &&& forall|i: int|
                0 <= i < after.len() && sets_key(#[trigger] after[i], key) ==> after[i]
                    == setting_line(key, value)
            &&& forall|i: int|
                0 <= i < before.len() && !sets_key(#[trigger] before[i], key) ==> after[i]
                    == before[i]
            &&& updated_text(updated, key, value) == updated
        }),
{
    let before = text::lines_of(content);
    let after = updated_lines(before, key, value);
    let line = setting_line(key, value);
    lemma_setting_line(key, value);
    assert forall|i: int| 0 <= i < after.len() implies is_plain_line(#[trigger] after[i]) by {
        if i < before.len() {
            assert(is_plain_line(before[i]));
        }
    }
    joined_lines_are_read_back(after);
    assert(after.contains(line)) by {
        if exists|i: int| 0 <= i < before.len() && sets_key(#[trigger] before[i], key) {
            let i = choose|i: int| 0 <= i < before.len() && sets_key(#[trigger] before[i], key);
            assert(after[i] == line);
        } else {
            assert(after[before.len() as int] == line);
        }
    }
    let k = choose|k: int| 0 <= k < after.len() && after[k] == line;
    assert(sets_key(after[k], key));
    assert(updated_lines(after, key, value) =~= after) by {
        assert forall|i: int| 0 <= i < after.len() && sets_key(
            #[trigger] after[i],
            key,
        ) implies after[i] == line by {
            if i < before.len() {
                assert(before[i] == before[i]);
            }
        }
    }
}

/// The line for a key is a plain line that sets the key.
proof fn lemma_setting_line(key: Seq<char>, value: Seq<char>)
    requires
        is_plain_key(key),
        !value.contains('\n'),
    ensures
        sets_key(setting_line(key, value), key),
        is_plain_line(setting_line(key, value)),
{
    reveal_strlit(" = ");
    reveal_strlit(" = \"");
    reveal_strlit("\"");
    let line = setting_line(key, value);
    assert(line[0] == key[0]);
    assert(text::trimmed_start(line) == line);
    assert(line.subrange(0, key_prefix(key).len() as int) =~= key_prefix(key));
    assert(line.last() == '"');
    assert forall|j: int| 0 <= j < line.len() implies line[j] != '\n' by {
        let k = key.len() as int;
        if j < k {
            assert(line[j] == key[j]);
            assert(key.contains(key[j]));
        } else if k + 4 <= j < k + 4 + value.len() {
            assert(line[j] == value[j - k - 4]);
            assert(value.contains(value[j - k - 4]));
        }
    }
}

/// A new settings file gives the key and the model, one line each.
pub proof fn new_files_give_both_settings(api_key: Seq<char>, model: Seq<char>)
    requires
        !api_key.contains('\n'),
        !model.contains('\n'),
    ensures
        text::lines_of(new_settings(api_key, model)) == seq![
            "api_key"@ + " = \""@ + api_key + "\""@,
            "default_text_model"@ + " = \""@ + model + "\""@,
        ],
{
    reveal_strlit("api_key");
    reveal_strlit("default_text_model");
    reveal_strlit(" = \"");
    reveal_strlit("\"");
    reveal_strlit("api_key = \"");
    reveal_strlit("\"\ndefault_text_model = \"");
    reveal_strlit("\"\n");
    let first = setting_line("api_key"@, api_key);
    let second = setting_line("default_text_model"@, model);
    let lines = seq![first, second];
    lemma_setting_line("api_key"@, api_key);
    lemma_setting_line("default_text_model"@, model);
    joined_lines_are_read_back(lines);
    reveal_with_fuel(joined_lines, 3);
    assert(lines.drop_last() =~= seq![first]);
    assert(lines.drop_last().drop_last() =~= Seq::<Seq<char>>::empty());
    assert(joined_lines(lines) =~= new_settings(api_key, model));
}

/// A line sets a key if it begins with the key and an equals sign, however far it is indented.
pub proof fn indented_lines_set_their_key(indent: Seq<char>, key: Seq<char>, rest: Seq<char>)
    requires
        is_plain_key(key),
        forall|i: int| 0 <= i < indent.len() ==> text::is_white(#[trigger] indent[i]),
    ensures
        sets_key(indent + key + " = "@ + rest, key),
    decreases indent.len(),
{
    reveal_strlit(" = ");
    let line = indent + key + " = "@ + rest;
    if indent.len() == 0 {
        assert(line[0] == key[0]);
        assert(text::trimmed_start(line) == line);
        assert(line.take(key_prefix(key).len() as int) =~= key_prefix(key));
    } else {
        let less = indent.drop_first();
        assert forall|i: int| 0 <= i < less.len() implies text::is_white(#[trigger] less[i]) by {
            assert(indent[i + 1] == less[i]);
        }
        indented_lines_set_their_key(less, key, rest);
        assert(line[0] == indent[0]);
        assert(line.drop_first() =~= less + key + " = "@ + rest);
    }
}

} // verus!
