//! The entry parser: pulls the `Exec=`, `Name=` and `Icon=` lines out of the
//! text of a desktop-entry file.
use vstd::prelude::*;
use vstd::string::*;

verus! {

/// The lines of `t`: the pieces between its newline characters, in order.
/// A text without newline is one line; a trailing newline ends in an empty line.
pub open spec fn lines_of(t: Seq<char>) -> Seq<Seq<char>>
    decreases t.len(),
{
    if t.len() == 0 {
        seq![Seq::<char>::empty()]
    } else {
        let prev = lines_of(t.drop_last());
        if t.last() == '\n' {
            prev.push(Seq::<char>::empty())
        } else {
            prev.update(prev.len() - 1, prev.last().push(t.last()))
        }
    }
}

/// The value of the last line among `lines` that begins with `key`: what
/// follows the key up to the end of that line. Empty where no line begins with it.
pub open spec fn last_value(lines: Seq<Seq<char>>, key: Seq<char>) -> Seq<char>
    decreases lines.len(),
{
    if lines.len() == 0 {
        Seq::<char>::empty()
    } else if key.is_prefix_of(lines.last()) {
        lines.last().subrange(key.len() as int, lines.last().len() as int)
    } else {
        last_value(lines.drop_last(), key)
    }
}

pub open spec fn exec_key() -> Seq<char> {
    seq!['E', 'x', 'e', 'c', '=']
}

pub open spec fn name_key() -> Seq<char> {
    seq!['N', 'a', 'm', 'e', '=']
}

pub open spec fn icon_key() -> Seq<char> {
    seq!['I', 'c', 'o', 'n', '=']
}

/// The value of field `key` in the entry text `t`: the last line wins.
pub open spec fn field_of(t: Seq<char>, key: Seq<char>) -> Seq<char> {
    last_value(lines_of(t), key)
}

pub open spec fn exec_of(t: Seq<char>) -> Seq<char> {
    field_of(t, exec_key())
}

pub open spec fn name_of(t: Seq<char>) -> Seq<char> {
    field_of(t, name_key())
}

pub open spec fn icon_of(t: Seq<char>) -> Seq<char> {
    field_of(t, icon_key())
}

/// An entry text parses when all three fields come out non-empty.
pub open spec fn parses(t: Seq<char>) -> bool {
    exec_of(t).len() > 0 && name_of(t).len() > 0 && icon_of(t).len() > 0
}

/// The three fields of a launcher entry.
#[derive(Clone, Debug, PartialEq, Eq)]
pub struct DesktopEntry {
    pub exec_path: String,
    pub name: String,
    pub icon_path: String,
}

impl DesktopEntry {
    /// The fields that parsing `t` yields.
    pub open spec fn parsed_from(self, t: Seq<char>) -> bool {
        &&& self.exec_path@ == exec_of(t)
        &&& self.name@ == name_of(t)
        &&& self.icon_path@ == icon_of(t)
    }

    /// A parsed entry has no empty field.
    pub open spec fn wf(self) -> bool {
        self.exec_path@.len() > 0 && self.name@.len() > 0 && self.icon_path@.len() > 0
    }
}

/// Why an entry text failed to parse: which of the three fields came out empty.
#[derive(Clone, Copy, Debug, PartialEq, Eq)]
pub struct ParseError {
    pub missing_exec: bool,
    pub missing_name: bool,
    pub missing_icon: bool,
}

/// The characters of `s`, in order.
pub fn chars_of(s: &str) -> (r: Vec<char>)
    ensures
        r@ == s@,
{
    let mut r: Vec<char> = Vec::new();
    for c in it: s.chars()
        invariant
            r@ == it.seq().take(it.index() as int),
    {
        r.push(c);
    }
    r
}


/// Whether `key` begins the piece `text[start..end]`.
pub(crate) fn key_starts(text: &Vec<char>, start: usize, end: usize, key: &Vec<char>) -> (r: bool)
    requires
        start <= end <= text@.len(),
    ensures
        r == key@.is_prefix_of(text@.subrange(start as int, end as int)),
{
    if key.len() > end - start {
        return false;
    }
    let mut j: usize = 0;
    while j < key.len()
        invariant
            j <= key@.len(),
            key@.len() <= end - start,
            start <= end <= text@.len(),
            forall|k: int| 0 <= k < j ==> key@[k] == text@[start + k],
        decreases key@.len() - j,
    {
        if key[j] != text[start + j] {
            assert(text@.subrange(start as int, end as int).subrange(0, key@.len() as int)[j as int]
                != key@[j as int]);
            return false;
        }
        j += 1;
    }
    assert(key@ =~= text@.subrange(start as int, end as int).subrange(0, key@.len() as int));
    true
}

/// Ends the line `text[start..end]` for field `key`: the new range of the
/// field's value is that line's value if the line begins with `key`, else `prev`.
fn close_line(text: &Vec<char>, start: usize, end: usize, key: &Vec<char>, prev: (usize, usize)) -> (r: (
    usize,
    usize,
))
    requires
        start <= end <= text@.len(),
        prev.0 <= prev.1 <= text@.len(),
    ensures
        r.0 <= r.1 <= text@.len(),
        text@.subrange(r.0 as int, r.1 as int) == (if key@.is_prefix_of(
            text@.subrange(start as int, end as int),
        ) {
            text@.subrange(start as int, end as int).subrange(key@.len() as int, end - start)
        } else {
            text@.subrange(prev.0 as int, prev.1 as int)
        }),
{
    if key_starts(text, start, end, key) {
        let r = (start + key.len(), end);
        assert(text@.subrange(r.0 as int, r.1 as int) =~= text@.subrange(
            start as int,
            end as int,
        ).subrange(key@.len() as int, end - start));
        r
    } else {
        prev
    }
}

/// One step of the line split: the lines of a text one character longer.
proof fn lemma_lines_step(t: Seq<char>, i: int)
    requires
        0 <= i < t.len(),
    ensures
        lines_of(t.subrange(0, i + 1)) == (if t[i] == '\n' {
            lines_of(t.subrange(0, i)).push(Seq::<char>::empty())
        } else {
            lines_of(t.subrange(0, i)).update(
                lines_of(t.subrange(0, i)).len() - 1,
                lines_of(t.subrange(0, i)).last().push(t[i]),
            )
        }),
{
    assert(t.subrange(0, i + 1).drop_last() =~= t.subrange(0, i));
}

/// The split of any text has at least one line.
pub proof fn lemma_lines_nonempty(t: Seq<char>)
    ensures
        lines_of(t).len() >= 1,
    decreases t.len(),
{
    if t.len() > 0 {
        lemma_lines_nonempty(t.drop_last());
    }
}

/// Parses the text of an entry file. Each of `Exec=`, `Name=` and `Icon=`
/// takes the rest of the last line that begins with it; the parse succeeds
/// exactly when none of the three comes out empty.
pub fn parse_desktop_entry(desktop_entry: &str) -> (r: Result<DesktopEntry, ParseError>)
    ensures
        r is Ok <==> parses(desktop_entry@),
        r matches Ok(e) ==> e.parsed_from(desktop_entry@) && e.wf(),
        r matches Err(err) ==> err == (ParseError {
            missing_exec: exec_of(desktop_entry@).len() == 0,
            missing_name: name_of(desktop_entry@).len() == 0,
            missing_icon: icon_of(desktop_entry@).len() == 0,
        }),
{
    let text = chars_of(desktop_entry);
    let exec_k: Vec<char> = vec!['E', 'x', 'e', 'c', '='];
    let name_k: Vec<char> = vec!['N', 'a', 'm', 'e', '='];
    let icon_k: Vec<char> = vec!['I', 'c', 'o', 'n', '='];
    assert(exec_k@ =~= exec_key());
    assert(name_k@ =~= name_key());
    assert(icon_k@ =~= icon_key());
    let ghost t = text@;
    let n = text.len();
    let mut exec_r: (usize, usize) = (0, 0);
    let mut name_r: (usize, usize) = (0, 0);
    let mut icon_r: (usize, usize) = (0, 0);
    let mut start: usize = 0;
    let mut i: usize = 0;
    proof {
        assert(t.subrange(0, 0) =~= Seq::<char>::empty());
    }
    while i < n
        invariant
            n == t.len(),
            t == text@,
            exec_k@ == exec_key(),
            name_k@ == name_key(),
            icon_k@ == icon_key(),
            start <= i <= n,
            lines_of(t.subrange(0, i as int)).len() >= 1,
            lines_of(t.subrange(0, i as int)).last() == t.subrange(start as int, i as int),
            exec_r.0 <= exec_r.1 <= n,
            name_r.0 <= name_r.1 <= n,
            icon_r.0 <= icon_r.1 <= n,
            t.subrange(exec_r.0 as int, exec_r.1 as int) == last_value(
                lines_of(t.subrange(0, i as int)).drop_last(),
                exec_key(),
            ),
            t.subrange(name_r.0 as int, name_r.1 as int) == last_value(
                lines_of(t.subrange(0, i as int)).drop_last(),
                name_key(),
            ),
            t.subrange(icon_r.0 as int, icon_r.1 as int) == last_value(
                lines_of(t.subrange(0, i as int)).drop_last(),
                icon_key(),
            ),
        decreases n - i,
    {
        let ghost before = lines_of(t.subrange(0, i as int));
        proof {
            lemma_lines_step(t, i as int);
        }
        if text[i] == '\n' {
            exec_r = close_line(&text, start, i, &exec_k, exec_r);
            name_r = close_line(&text, start, i, &name_k, name_r);
            icon_r = close_line(&text, start, i, &icon_k, icon_r);
            assert(before.push(Seq::<char>::empty()).drop_last() =~= before);
            assert(before =~= before.drop_last().push(before.last()));
            start = i + 1;
        } else {
            assert(before.update(before.len() - 1, before.last().push(t[i as int])).drop_last()
                =~= before.drop_last());
            assert(t.subrange(start as int, i as int).push(t[i as int]) =~= t.subrange(
                start as int,
                i + 1,
            ));
        }
        i += 1;
        proof {
            assert(t.subrange(i as int, i as int) =~= Seq::<char>::empty());
        }
    }
    exec_r = close_line(&text, start, n, &exec_k, exec_r);
    name_r = close_line(&text, start, n, &name_k, name_r);
    icon_r = close_line(&text, start, n, &icon_k, icon_r);
    proof {
        assert(t.subrange(0, n as int) =~= t);
        assert(t.subrange(start as int, n as int).len() == n - start);
    }
    let missing_exec = exec_r.0 == exec_r.1;
    let missing_name = name_r.0 == name_r.1;
    let missing_icon = icon_r.0 == icon_r.1;
    if missing_exec || missing_name || missing_icon {
        Err(ParseError { missing_exec, missing_name, missing_icon })
    } else {
        let exec_path = desktop_entry.substring_char(exec_r.0, exec_r.1).to_owned();
        let name = desktop_entry.substring_char(name_r.0, name_r.1).to_owned();
        let icon_path = desktop_entry.substring_char(icon_r.0, icon_r.1).to_owned();
        Ok(DesktopEntry { exec_path, name, icon_path })
    }
}

} // verus!
