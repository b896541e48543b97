//! What written texts are, and how texts are told apart.
use vstd::prelude::*;

use crate::column_name;
use crate::error::ErrorView;
use crate::text;

verus! {

/// In ASCII text, lower case changes the letters `A` to `Z` and nothing else.
pub proof fn lower_case_of_ascii(s: Seq<char>)
    requires
        vstd::utf8::is_ascii_chars(s),
    ensures
        text::lowercase(s).len() == s.len(),
        forall|i: int|
            0 <= i < s.len() ==> #[trigger] text::lowercase(s)[i] as int == if 65 <= s[i] as int
                <= 90 {
                s[i] as int + 32
            } else {
                s[i] as int
            },
{
}

/// Lower case of other text is what the standard library makes of it.
pub proof fn lower_case_of_other_text(s: Seq<char>)
    requires
        !vstd::utf8::is_ascii_chars(s),
    ensures
        text::lowercase(s) == text::unicode_lowercase(s),
{
}

/// Two ASCII texts have the same lower case just when they differ at most in the case of letters.
pub proof fn lower_case_tells_ascii_apart(a: Seq<char>, b: Seq<char>)
    requires
        vstd::utf8::is_ascii_chars(a),
        vstd::utf8::is_ascii_chars(b),
    ensures
        text::lowercase(a) == text::lowercase(b) <==> a.len() == b.len() && forall|i: int|
            #![trigger a[i]]
            #![trigger b[i]]
            0 <= i < a.len() ==> a[i] == b[i] || (a[i] as int == b[i] as int + 32 && 65 <= b[i] as int
                <= 90) || (b[i] as int == a[i] as int + 32 && 65 <= a[i] as int <= 90),
{
    lower_case_of_ascii(a);
    lower_case_of_ascii(b);
    let x = text::lowercase(a);
    let y = text::lowercase(b);
    if x == y {
        assert forall|i: int|
            #![trigger a[i]]
            #![trigger b[i]]
            0 <= i < a.len() implies a[i] == b[i] || (a[i] as int == b[i] as int + 32 && 65
            <= b[i] as int <= 90) || (b[i] as int == a[i] as int + 32 && 65 <= a[i] as int <= 90) by {
            assert(x[i] as int == y[i] as int);
        }
    }
    if a.len() == b.len() && forall|i: int|
        #![trigger a[i]]
        #![trigger b[i]]
        0 <= i < a.len() ==> a[i] == b[i] || (a[i] as int == b[i] as int + 32 && 65 <= b[i] as int
            <= 90) || (b[i] as int == a[i] as int + 32 && 65 <= a[i] as int <= 90) {
        assert forall|i: int| 0 <= i < x.len() implies x[i] == y[i] by {
            assert(a[i] == a[i]);
            assert(x[i] as int == y[i] as int);
        }
        assert(x =~= y);
    }
}

/// A number below ten is written as its digit, a greater one as that of its tens and the digit that
/// remains, and a negative one with a minus sign.
pub proof fn decimal_digit_by_digit(n: nat, d: int)
    requires
        0 <= d < 10,
    ensures
        text::decimal(d).len() == 1 && text::decimal(d)[0] as int == 48 + d,
        n > 0 ==> text::decimal(n * 10 + d) == text::decimal(n as int) + text::decimal(d),
        n > 0 ==> text::decimal(-(n as int)) == seq!['-'] + text::decimal(n as int),
{
    if n > 0 {
        let m = (n * 10 + d) as nat;
        assert(m / 10 == n && m % 10 == d);
        assert(text::decimal_digits(m) =~= text::decimal_digits(n) + seq![text::digit(d)]);
    }
}

/// Whether a text is made of decimal digits, at least one.
pub open spec fn is_numeral(s: Seq<char>) -> bool {
    s.len() > 0 && forall|i: int| 0 <= i < s.len() ==> 48 <= (#[trigger] s[i] as int) <= 57
}

/// Reading a number goes digit by digit, with an optional sign, and ends at 64 bits.
pub proof fn numbers_are_read_digit_by_digit(s: Seq<char>, c: char)
    requires
        48 <= c as int <= 57,
    ensures
        text::parsed_i64(seq![c]) == Some(c as int - 48),
        is_numeral(s) ==> text::parsed_i64(s.push(c)) == match text::parsed_i64(s) {
            Some(v) => if v * 10 + (c as int - 48) <= 0x7fff_ffff_ffff_ffff {
                Some(v * 10 + (c as int - 48))
            } else {
                None
            },
            None => None,
        },
        is_numeral(s) ==> text::parsed_i64(seq!['+'] + s) == text::parsed_i64(s),
        is_numeral(s) && text::parsed_i64(s) is Some ==> text::parsed_i64(seq!['-'] + s) == Some(
            -text::parsed_i64(s)->0,
        ),
{
    let one = seq![c];
    assert(one.drop_last() == Seq::<char>::empty());
    assert(text::digits_value(one.drop_last()) == 0);
    assert(text::unsigned_part(one) == one);
    assert(text::digits_value(one) == c as int - 48);
    assert(forall|i: int| 0 <= i < one.len() ==> text::is_digit(one[i]));
    if is_numeral(s) {
        let t = s.push(c);
        assert(t.drop_last() == s);
        assert(48 <= s[0] as int <= 57);
        assert(text::unsigned_part(s) == s);
        assert(t[0] == s[0]);
        assert(text::unsigned_part(t) == t);
        assert forall|i: int| 0 <= i < s.len() implies text::is_digit(s[i]) by {
            assert(48 <= s[i] as int <= 57);
        }
        assert forall|i: int| 0 <= i < t.len() implies text::is_digit(t[i]) by {
            if i < s.len() {
                assert(t[i] == s[i]);
            }
        }
        text::lemma_digits_value_grows(s, 0);
        assert(s.take(0) == Seq::<char>::empty());
        assert(text::unsigned_part(seq!['+'] + s) =~= s);
        assert(text::unsigned_part(seq!['-'] + s) =~= s);
        assert((seq!['+'] + s)[0] == '+');
        assert((seq!['-'] + s)[0] == '-');
    }
}

/// What is no numeral after an optional sign stands for no number.
pub proof fn other_texts_are_no_numbers(s: Seq<char>)
    ensures
        text::parsed_i64(s) is Some ==> is_numeral(s) || (s.len() > 0 && (s[0] == '-' || s[0] == '+')
            && is_numeral(s.skip(1))),
        s.len() > 0 && s[0] == '-' && is_numeral(s.skip(1)) ==> (text::parsed_i64(s) is Some <==> {
            ||| text::parsed_i64(s.skip(1)) is Some
            ||| text::digits_value(s.skip(1)) == 0x8000_0000_0000_0000
        }),
{
    let digits = text::unsigned_part(s);
    if text::parsed_i64(s) is Some {
        assert forall|i: int| 0 <= i < digits.len() implies 48 <= (#[trigger] digits[i] as int) <= 57 by {
            assert(text::is_digit(digits[i]));
        }
    }
    if s.len() > 0 && s[0] == '-' && is_numeral(s.skip(1)) {
        let rest = s.skip(1);
        assert(48 <= rest[0] as int <= 57);
        assert(text::unsigned_part(rest) == rest);
        assert forall|i: int| 0 <= i < rest.len() implies text::is_digit(rest[i]) by {
            assert(48 <= rest[i] as int <= 57);
        }
        text::lemma_digits_value_grows(rest, 0);
        assert(rest.take(0) == Seq::<char>::empty());
    }
}

/// An error is shown with its whole message, after a lead that tells its kind.
pub proof fn errors_show_their_messages(m: Seq<char>)
    ensures
        ErrorView::Generic(m).text() == "Generic delta kernel error: "@ + m,
        ErrorView::InternalError(m).text() == "Internal error "@ + m
            + ". This is a kernel bug, please report."@,
        ErrorView::InvalidProtocol(m).text() == "Invalid protocol action in the delta log: "@ + m,
        ErrorView::Schema(m).text() == "Schema error: "@ + m,
        ErrorView::Unsupported(m).text() == "Unsupported: "@ + m,
{
}

/// Whether a character is a letter or digit of ASCII, or an underscore.
pub open spec fn is_word_char(c: char) -> bool {
    ||| 48 <= c as int <= 57
    ||| 65 <= c as int <= 90
    ||| 97 <= c as int <= 122
    ||| c == '_'
}

/// A name that is made of word characters and does not begin with a digit is written as it is. Any
/// other is written between backticks, with each backtick in it doubled and nothing else changed.
pub proof fn names_are_quoted_where_needed(name: Seq<char>, rest: Seq<char>, c: char)
    ensures
        name.len() > 0 && !(48 <= name[0] as int <= 57) && (forall|i: int|
            0 <= i < name.len() ==> is_word_char(#[trigger] name[i])) ==> column_name::name_text(name)
            == name,
        name.len() == 0 || 48 <= name[0] as int <= 57 || (exists|i: int|
            0 <= i < name.len() && !is_word_char(#[trigger] name[i]))
            ==> column_name::name_text(name) == seq!['`'] + column_name::backticks_doubled(name)
            + seq!['`'],
        column_name::backticks_doubled(Seq::empty()) == Seq::<char>::empty(),
        column_name::backticks_doubled(rest.push(c)) == column_name::backticks_doubled(rest) + if c
            == '`' {
            seq!['`', '`']
        } else {
            seq![c]
        },
{
    reveal_strlit("`");
    assert("`"@ =~= seq!['`']);
    assert(rest.push(c).drop_last() == rest);
    assert(column_name::backticks_doubled(rest.push(c)) =~= column_name::backticks_doubled(rest)
        + if c == '`' {
        seq!['`', '`']
    } else {
        seq![c]
    });
    if name.len() > 0 && !(48 <= name[0] as int <= 57) {
        if forall|i: int| 0 <= i < name.len() ==> is_word_char(#[trigger] name[i]) {
            assert forall|i: int| 0 <= i < name.len() implies column_name::is_simple_char(
                #[trigger] name[i],
            ) by {
                assert(is_word_char(name[i]));
            }
        }
        if exists|i: int| 0 <= i < name.len() && !is_word_char(#[trigger] name[i]) {
            let i = choose|i: int| 0 <= i < name.len() && !is_word_char(#[trigger] name[i]);
            assert(!column_name::is_simple_char(name[i]));
        }
    }
}

/// A path is written name by name, with dots between the names.
pub proof fn paths_are_written_name_by_name(path: Seq<Seq<char>>, name: Seq<char>)
    ensures
        column_name::path_text(Seq::empty()) == Seq::<char>::empty(),
        column_name::path_text(path.push(name)) == if path.len() == 0 {
            column_name::name_text(name)
        } else {
            column_name::path_text(path) + "."@ + column_name::name_text(name)
        },
{
    assert(path.push(name).drop_last() == path);
}

} // verus!
