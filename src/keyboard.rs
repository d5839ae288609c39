//! Keyboard reporting for status bars: which keyboards to report on, the
//! flag of a layout, and the escaping of text placed inside JSON strings.
use vstd::prelude::*;
use vstd::utf8::{decode_utf8, encode_utf8, valid_utf8};
use crate::text::{chars_of, same_text, string_of};
use itertools::Itertools;

verus! {

/// A keyboard layout as the layout registry describes it.
pub struct Layout {
    pub description: String,
    pub name: String,
    pub variant: Option<String>,
    pub brief: Option<String>,
}

/// The bytes of the flag of a two-letter layout name: two regional
/// indicator symbols, each the letter's byte shifted into the last byte of
/// a four-byte sequence.
pub open spec fn flag_bytes(b0: u8, b1: u8) -> Seq<u8> {
    seq![0xf0u8, 0x9fu8, 0x87u8, (b0 + 0x45) as u8, 0xf0u8, 0x9fu8, 0x87u8, (b1 + 0x45) as u8]
}

/// The flag of a layout whose name has the bytes `name`: the decoded flag
/// bytes when the name has two bytes, neither of which overflows a byte when
/// shifted, and the flag bytes are valid UTF-8; the empty text otherwise.
pub open spec fn flag_spec(name: Seq<u8>) -> Seq<char> {
    if name.len() == 2 && name[0] + 0x45 <= 0xff && name[1] + 0x45 <= 0xff && valid_utf8(
        flag_bytes(name[0], name[1]),
    ) {
        decode_utf8(flag_bytes(name[0], name[1]))
    } else {
        Seq::empty()
    }
}

/// Relies on `String::from_utf8`: the text that the bytes encode, when they
/// are valid UTF-8.
#[verifier::external_body]
fn string_from_utf8(v: Vec<u8>) -> (r: Option<String>)
    ensures
        r is Some <==> valid_utf8(v@),
        r is Some ==> r->Some_0@ == decode_utf8(v@),
{
    String::from_utf8(v).ok()
}

impl Layout {
    /// The flag emoji of the layout's two-letter name; empty when the name
    /// does not have two bytes or gives no valid flag.
    pub fn flag(&self) -> (r: String)
        ensures
            r@ == flag_spec(encode_utf8(self.name@)),
    {
        let bytes = self.name.as_str().as_bytes();
        if bytes.len() != 2 {
            proof {
                reveal_strlit("");
            }
            return string_of(chars_of("").as_slice());
        }
        let b0 = bytes[0];
        let b1 = bytes[1];
        if b0 > 0xba || b1 > 0xba {
            proof {
                reveal_strlit("");
            }
            return string_of(chars_of("").as_slice());
        }
        let mut data: Vec<u8> = Vec::new();
        data.push(0xf0);
        data.push(0x9f);
        data.push(0x87);
        data.push(b0 + 0x45);
        data.push(0xf0);
        data.push(0x9f);
        data.push(0x87);
        data.push(b1 + 0x45);
        proof {
            assert(data@ =~= flag_bytes(b0, b1));
        }
        match string_from_utf8(data) {
            Some(s) => s,
            None => {
                proof {
                    reveal_strlit("");
                }
                string_of(chars_of("").as_slice())
            },
        }
    }
}

/// The text `s` with each `"` written as `\"` and each line break as `\n`.
pub open spec fn json_escape(s: Seq<char>) -> Seq<char>
    decreases s.len(),
{
    if s.len() == 0 {
        Seq::empty()
    } else {
        json_escape(s.drop_last()) + if s.last() == '"' {
            seq!['\\', '"']
        } else if s.last() == '\n' {
            seq!['\\', 'n']
        } else {
            seq![s.last()]
        }
    }
}

/// Escapes `s` for a JSON string: `"` becomes `\"` and a line break `\n`.
pub fn json_escaped(s: &str) -> (r: String)
    ensures
        r@ == json_escape(s@),
{
    let cs = chars_of(s);
    let mut out: Vec<char> = Vec::new();
    let mut i: usize = 0;
    while i < cs.len()
        invariant
            i <= cs@.len(),
            cs@ == s@,
            out@ == json_escape(cs@.subrange(0, i as int)),
        decreases cs.len() - i,
    {
        let c = cs[i];
        proof {
            assert(cs@.subrange(0, i + 1).drop_last() =~= cs@.subrange(0, i as int));
        }
        if c == '"' {
            out.push('\\');
            out.push('"');
        } else if c == '\n' {
            out.push('\\');
            out.push('n');
        } else {
            out.push(c);
        }
        proof {
            assert(out@ =~= json_escape(cs@.subrange(0, i + 1)));
        }
        i = i + 1;
    }
    proof {
        assert(cs@.subrange(0, i as int) =~= s@);
    }
    string_of(out.as_slice())
}

/// The keyboards to report on, as given on the command line: identifiers that are
/// wanted or unwanted, each list with the lines of a file when a file
/// was given (no lines when it could not be read).
pub struct KeyboardSelection {
    pub wanted: Vec<String>,
    pub wanted_file: Option<Vec<String>>,
    pub unwanted: Vec<String>,
    pub unwanted_file: Option<Vec<String>>,
}

/// The line is kept: it is not empty and does not start with `#`.
pub open spec fn kept_line(l: Seq<char>) -> bool {
    l.len() > 0 && l[0] != '#'
}

/// The kept lines of `lines`, in order.
pub open spec fn kept_lines(lines: Seq<String>) -> Seq<Seq<char>>
    decreases lines.len(),
{
    if lines.len() == 0 {
        Seq::empty()
    } else {
        kept_lines(lines.drop_last()) + if kept_line(lines.last()@) {
            seq![lines.last()@]
        } else {
            Seq::empty()
        }
    }
}

/// The texts of a sequence of strings.
pub open spec fn views(v: Seq<String>) -> Seq<Seq<char>> {
    v.map_values(|s: String| s@)
}

/// The identifiers of `list`, followed by the kept lines of the file, if any.
pub fn build_clude_list(list: &Vec<String>, file_lines: &Option<Vec<String>>) -> (r: Vec<String>)
    ensures
        views(r@) == views(list@) + match file_lines {
            Some(ls) => kept_lines(ls@),
            None => Seq::empty(),
        },
{
    let mut result: Vec<String> = Vec::new();
    let mut i: usize = 0;
    while i < list.len()
        invariant
            i <= list@.len(),
            result@ == list@.subrange(0, i as int),
        decreases list.len() - i,
    {
        result.push(list[i].clone());
        proof {
            assert(result@ =~= list@.subrange(0, i + 1));
        }
        i = i + 1;
    }
    proof {
        assert(list@.subrange(0, i as int) =~= list@);
    }
    let ghost base = views(result@);
    match file_lines {
        Some(lines) => {
            let mut j: usize = 0;
            while j < lines.len()
                invariant
                    j <= lines@.len(),
                    views(result@) == base + kept_lines(lines@.subrange(0, j as int)),
                decreases lines.len() - j,
            {
                let line = &lines[j];
                proof {
                    assert(lines@.subrange(0, j + 1).drop_last() =~= lines@.subrange(0, j as int));
                }
                let cs = chars_of(line.as_str());
                let ghost prev = result@;
                if cs.len() > 0 && cs[0] != '#' {
                    result.push(line.clone());
                    proof {
                        assert(views(result@) =~= views(prev).push(line@));
                    }
                } else {
                    proof {
                        assert(!kept_line(line@));
                    }
                }
                proof {
                    assert(lines@.subrange(0, j + 1).last() == *line);
                    assert(views(result@) =~= base + kept_lines(lines@.subrange(0, j + 1)));
                }
                j = j + 1;
            }
            proof {
                assert(lines@.subrange(0, j as int) =~= lines@);
            }
        },
        None => {
            proof {
                assert(views(result@) =~= base + Seq::<Seq<char>>::empty());
            }
        },
    }
    result
}

/// The identifiers to match and whether they are wanted (otherwise
/// unwanted): the wanted ones count when any identifier or file was given for it.
pub fn get_include_exclude(sel: &KeyboardSelection) -> (r: (Vec<String>, bool))
    ensures
        r.1 == (sel.wanted@.len() > 0 || sel.wanted_file is Some),
        r.1 ==> views(r.0@) == views(sel.wanted@) + match sel.wanted_file {
            Some(ls) => kept_lines(ls@),
            None => Seq::empty(),
        },
        !r.1 ==> views(r.0@) == views(sel.unwanted@) + match sel.unwanted_file {
            Some(ls) => kept_lines(ls@),
            None => Seq::empty(),
        },
{
    let wanted = sel.wanted.len() > 0 || sel.wanted_file.is_some();
    let list = if wanted {
        build_clude_list(&sel.wanted, &sel.wanted_file)
    } else {
        build_clude_list(&sel.unwanted, &sel.unwanted_file)
    };
    (list, wanted)
}

/// Whether an input device is reported on: it is a keyboard, and its
/// identifier is among `matches` when they are wanted, or not among them
/// when they are unwanted.
pub fn keyboard_selected(matches: &Vec<String>, wanted: bool, input_type: &str, identifier: &str) -> (r:
    bool)
    ensures
        r == (input_type@ == "keyboard"@ && (views(matches@).contains(identifier@) == wanted)),
{
    if !same_text(input_type, "keyboard") {
        return false;
    }
    let mut found = false;
    let mut i: usize = 0;
    while i < matches.len()
        invariant
            i <= matches@.len(),
            found == exists|j: int| 0 <= j < i && (#[trigger] matches@[j])@ == identifier@,
        decreases matches.len() - i,
    {
        if !found && same_text(matches[i].as_str(), identifier) {
            found = true;
        }
        i = i + 1;
    }
    proof {
        if found {
            let j = choose|j: int| 0 <= j < i && (#[trigger] matches@[j])@ == identifier@;
            assert(views(matches@)[j] == identifier@);
        }
        if views(matches@).contains(identifier@) {
            let j = choose|j: int| 0 <= j < views(matches@).len() && views(matches@)[j] == identifier@;
            assert(matches@[j]@ == identifier@);
        }
    }
    found == wanted
}

/// `parts` with `sep` between each two neighbours.
pub open spec fn joined(parts: Seq<Seq<char>>, sep: Seq<char>) -> Seq<char>
    decreases parts.len(),
{
    if parts.len() == 0 {
        Seq::empty()
    } else if parts.len() == 1 {
        parts[0]
    } else {
        joined(parts.drop_last(), sep) + sep + parts.last()
    }
}

/// The texts of the renderings that succeeded, in order.
pub open spec fn rendered_texts(rendered: Seq<Option<String>>) -> Seq<Seq<char>>
    decreases rendered.len(),
{
    if rendered.len() == 0 {
        Seq::empty()
    } else {
        rendered_texts(rendered.drop_last()) + match rendered.last() {
            Some(t) => seq![t@],
            None => Seq::empty(),
        }
    }
}

/// Relies on `Itertools::join`: the texts, written one after the other,
/// with `sep` between each two neighbours.
#[verifier::external_body]
fn join_texts(parts: &Vec<String>, sep: &str) -> (r: String)
    ensures
        r@ == joined(views(parts@), sep@),
{
    parts.iter().join(sep)
}

/// Joins the renderings that succeeded, with `sep` between neighbours;
/// failed renderings are left out.
pub fn join_rendered(rendered: &Vec<Option<String>>, sep: &str) -> (r: String)
    ensures
        r@ == joined(rendered_texts(rendered@), sep@),
{
    let mut parts: Vec<String> = Vec::new();
    let mut i: usize = 0;
    while i < rendered.len()
        invariant
            i <= rendered@.len(),
            views(parts@) == rendered_texts(rendered@.subrange(0, i as int)),
        decreases rendered.len() - i,
    {
        proof {
            assert(rendered@.subrange(0, i + 1).drop_last() =~= rendered@.subrange(0, i as int));
        }
        let ghost prev = parts@;
        match &rendered[i] {
            Some(t) => {
                parts.push(t.clone());
                proof {
                    assert(views(parts@) =~= views(prev).push(t@));
                }
            },
            None => {},
        }
        proof {
            assert(views(parts@) =~= rendered_texts(rendered@.subrange(0, i + 1)));
        }
        i = i + 1;
    }
    proof {
        assert(rendered@.subrange(0, i as int) =~= rendered@);
    }
    join_texts(&parts, sep)
}

} // verus!
