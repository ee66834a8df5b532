use vstd::prelude::*;
use crate::strings::{is_split_of, join_strings, joined, split_at_char, str_eq, texts};

verus! {

/// A line as it stands inside a module: indented by four spaces, unless it is empty.
pub open spec fn indented(line: Seq<char>) -> Seq<char> {
    if line.len() == 0 {
        line
    } else {
        "    "@ + line
    }
}

/// Each of the lines, indented.
pub open spec fn indented_all(lines: Seq<Seq<char>>) -> Seq<Seq<char>> {
    lines.map_values(|line: Seq<char>| indented(line))
}

/// `text` is the module `name` with the contents `contents` as it stands in
/// the generated file: the module `mod` stands at the top level, every
/// other one in a `mod` item of its name, its lines indented.
pub open spec fn is_module_text(text: Seq<char>, name: Seq<char>, contents: Seq<char>) -> bool {
    if name == "mod"@ {
        text == contents
    } else {
        exists|lines: Seq<Seq<char>>|
            is_split_of(lines, contents, '\n') && text == "mod "@ + name + " {\n"@ + joined(
                indented_all(lines),
                "\n"@,
            ) + "}"@
    }
}

/// The text of one module as it stands in the generated file.
pub fn module_text(name: &str, contents: &str) -> (text: String)
    ensures
        is_module_text(text@, name@, contents@),
{
    if str_eq(name, "mod") {
        contents.to_owned()
    } else {
        let lines = split_at_char(contents, '\n');
        let mut shifted: Vec<String> = Vec::new();
        let mut i: usize = 0;
        while i < lines.len()
            invariant
                i <= lines@.len(),
                shifted@.len() == i,
                forall|j: int| 0 <= j < i ==> (#[trigger] shifted@[j])@ == indented(lines@[j]@),
            decreases lines@.len() - i,
        {
            let line = lines[i].as_str();
            if str_eq(line, "") {
                proof {
                    reveal_strlit("");
                    assert(line@ =~= Seq::<char>::empty());
                }
                shifted.push("".to_owned());
            } else {
                proof {
                    reveal_strlit("");
                    if line@.len() == 0 {
                        assert(line@ =~= ""@);
                    }
                }
                shifted.push("    ".to_owned().concat(line));
            }
            i += 1;
        }
        let body = join_strings(&shifted, "\n");
        let text = "mod ".to_owned().concat(name).concat(" {\n").concat(body.as_str()).concat("}");
        proof {
            let witness = texts(lines@);
            assert(texts(shifted@) =~= indented_all(witness));
            assert forall|i: int| 0 <= i < witness.len() implies !(#[trigger] witness[i]).contains(
                '\n',
            ) by {
                assert(witness[i] == lines@[i]@);
            }
            assert(is_split_of(witness, contents@, '\n'));
        }
        text
    }
}

/// The generated file: the modules one after the other, with an empty line
/// between each two neighbours.
pub fn combine_modules(m: &Vec<(String, String)>) -> (text: String)
    ensures
        exists|parts: Seq<Seq<char>>|
            parts.len() == m@.len() && text@ == joined(parts, "\n\n"@) && forall|i: int|
                0 <= i < m@.len() ==> is_module_text(#[trigger] parts[i], m@[i].0@, m@[i].1@),
{
    let mut parts: Vec<String> = Vec::new();
    let mut i: usize = 0;
    while i < m.len()
        invariant
            i <= m@.len(),
            parts@.len() == i,
            forall|j: int|
                0 <= j < i ==> is_module_text((#[trigger] parts@[j])@, m@[j].0@, m@[j].1@),
        decreases m@.len() - i,
    {
        parts.push(module_text(m[i].0.as_str(), m[i].1.as_str()));
        i += 1;
    }
    let text = join_strings(&parts, "\n\n");
    proof {
        let witness = texts(parts@);
        assert forall|i: int| 0 <= i < m@.len() implies is_module_text(
            #[trigger] witness[i],
            m@[i].0@,
            m@[i].1@,
        ) by {
            assert(witness[i] == parts@[i]@);
        }
    }
    text
}

} // verus!
