//! Paths of field names, from a top-level column inwards.
use vstd::prelude::*;
use vstd::string::*;

verus! {

/// The path to a column or nested field: one name for each level.
#[derive(Debug, PartialEq, Eq)]
pub struct ColumnName {
    path: Vec<String>,
}

/// The views of a list of names.
pub open spec fn names_view(names: Seq<String>) -> Seq<Seq<char>> {
    names.map_values(|s: String| s@)
}

impl View for ColumnName {
    type V = Seq<Seq<char>>;

    closed spec fn view(&self) -> Seq<Seq<char>> {
        names_view(self.path@)
    }
}

/// Whether `c` needs no quoting in a column path.
pub open spec fn is_simple_char(c: char) -> bool {
    'a' <= c <= 'z' || 'A' <= c <= 'Z' || '0' <= c <= '9' || c == '_'
}

/// Whether a name needs no quoting in a column path.
pub open spec fn is_simple(name: Seq<char>) -> bool {
    &&& name.len() > 0
    &&& !('0' <= name[0] <= '9')
    &&& forall|i: int| 0 <= i < name.len() ==> is_simple_char(#[trigger] name[i])
}

/// The name with each backtick doubled.
pub open spec fn backticks_doubled(name: Seq<char>) -> Seq<char>
    decreases name.len(),
{
    if name.len() == 0 {
        Seq::empty()
    } else if name.last() == '`' {
        backticks_doubled(name.drop_last()).push('`').push('`')
    } else {
        backticks_doubled(name.drop_last()).push(name.last())
    }
}

/// A name as it is written in a column path: between backticks, unless it is simple.
pub open spec fn name_text(name: Seq<char>) -> Seq<char> {
    if is_simple(name) {
        name
    } else {
        "`"@ + backticks_doubled(name) + "`"@
    }
}

/// A column path as it is written in messages: the names with dots between them.
pub open spec fn path_text(path: Seq<Seq<char>>) -> Seq<char>
    decreases path.len(),
{
    if path.len() == 0 {
        Seq::empty()
    } else if path.len() == 1 {
        name_text(path[0])
    } else {
        path_text(path.drop_last()) + "."@ + name_text(path.last())
    }
}

fn needs_no_quoting(name: &str) -> (simple: bool)
    ensures
        simple == is_simple(name@),
{
    let n: usize = name.unicode_len();
    if n == 0 {
        return false;
    }
    let first = name.get_char(0);
    if '0' <= first && first <= '9' {
        return false;
    }
    let mut i: usize = 0;
    while i < n
        invariant
            n == name@.len(),
            i <= n,
            forall|j: int| 0 <= j < i ==> is_simple_char(#[trigger] name@[j]),
        decreases n - i,
    {
        let c = name.get_char(i);
        if !(('a' <= c && c <= 'z') || ('A' <= c && c <= 'Z') || ('0' <= c && c <= '9')
            || c == '_') {
            assert(!is_simple_char(name@[i as int]));
            return false;
        }
        i = i + 1;
    }
    true
}

fn append_name(text: &mut String, name: &str)
    ensures
        final(text)@ == old(text)@ + name_text(name@),
{
    if needs_no_quoting(name) {
        text.append(name);
        return;
    }
    proof {
        reveal_strlit("`");
    }
    text.append("`");
    let n: usize = name.unicode_len();
    let mut i: usize = 0;
    while i < n
        invariant
            n == name@.len(),
            i <= n,
            "`"@ == seq!['`'],
            text@ == old(text)@ + "`"@ + backticks_doubled(name@.take(i as int)),
        decreases n - i,
    {
        assert(name@.take(i + 1).drop_last() == name@.take(i as int));
        let c = name.get_char(i);
        text.append(name.substring_char(i, i + 1));
        if c == '`' {
            text.append("`");
        }
        assert(text@ == old(text)@ + "`"@ + backticks_doubled(name@.take(i + 1)));
        i = i + 1;
    }
    assert(name@.take(n as int) == name@);
    text.append("`");
    assert(text@ == old(text)@ + name_text(name@));
}

impl ColumnName {
    /// The path made of the given names.
    pub fn new(path: Vec<String>) -> (column: ColumnName)
        ensures
            column@ == names_view(path@),
    {
        ColumnName { path }
    }

    /// The names of the path.
    pub fn path(&self) -> (path: &[String])
        ensures
            names_view(path@) == self@,
    {
        self.path.as_slice()
    }

    /// The names of the path.
    pub fn into_inner(self) -> (path: Vec<String>)
        ensures
            names_view(path@) == self@,
    {
        self.path
    }

    /// This path, followed by `inner`.
    pub fn join(&self, inner: &ColumnName) -> (column: ColumnName)
        ensures
            column@ == self@ + inner@,
    {
        let mut column = self.clone();
        for i in 0..inner.path.len()
            invariant
                column@ == self@ + inner@.take(i as int),
        {
            let ghost before = column.path@;
            column.path.push(inner.path[i].clone());
            assert(names_view(column.path@) == names_view(before).push(inner@[i as int]));
        }
        assert(inner@.take(inner@.len() as int) == inner@);
        column
    }

    /// The path as it is written in messages.
    pub fn to_string(&self) -> (text: String)
        ensures
            text@ == path_text(self@),
    {
        let mut text = String::new();
        for i in 0..self.path.len()
            invariant
                text@ == path_text(self@.take(i as int)),
        {
            assert(self@.take(i + 1).drop_last() == self@.take(i as int));
            if i > 0 {
                text.append(".");
            }
            append_name(&mut text, self.path[i].as_str());
            assert(self@[i as int] == self.path@[i as int]@);
        }
        assert(self@.take(self@.len() as int) == self@);
        text
    }
}

impl Clone for ColumnName {
    fn clone(&self) -> (column: Self)
        ensures
            column@ == self@,
    {
        let mut path: Vec<String> = Vec::new();
        for i in 0..self.path.len()
            invariant
                names_view(path@) == self@.take(i as int),
        {
            let ghost before = path@;
            path.push(self.path[i].clone());
            assert(names_view(path@) == names_view(before).push(self@[i as int]));
        }
        assert(self@.take(self@.len() as int) == self@);
        ColumnName { path }
    }
}

} // verus!
