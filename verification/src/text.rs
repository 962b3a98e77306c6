//! Numbers and lists in sentences.

use vstd::prelude::*;
use vstd::string::{StrSliceExecFns, StringExecFns};

verus! {

/// The decimal digit `d`.
pub open spec fn decimal_digit(d: int) -> char {
    "0123456789"@[d]
}

/// `n` in decimal.
pub open spec fn decimal(n: nat) -> Seq<char>
    decreases n,
{
    if n < 10 {
        seq![decimal_digit(n as int)]
    } else {
        decimal(n / 10).push(decimal_digit((n % 10) as int))
    }
}

/// `n` in decimal.
pub fn to_decimal(n: usize) -> (text: String)
    ensures
        text@ == decimal(n as nat),
    decreases n,
{
    let mut text: String = if n < 10 {
        String::new()
    } else {
        to_decimal(n / 10)
    };
    let digit: usize = n % 10;
    proof {
        reveal_strlit("0123456789");
    }
    let ghost high = text@;
    text.append("0123456789".substring_char(digit, digit + 1));
    assert(text@ == high.push(decimal_digit(digit as int)));
    assert(Seq::<char>::empty().push(decimal_digit(digit as int)) == seq![
        decimal_digit(digit as int),
    ]);
    text
}

/// What the texts say.
pub open spec fn text_views(texts: Seq<String>) -> Seq<Seq<char>> {
    texts.map_values(|t: String| t@)
}

/// The names, with a comma between each two.
pub open spec fn listed(names: Seq<Seq<char>>) -> Seq<char>
    decreases names.len(),
{
    if names.len() == 0 {
        seq![]
    } else if names.len() == 1 {
        names[0]
    } else {
        listed(names.drop_last()) + ", "@ + names.last()
    }
}

/// The names, with a comma between each two.
pub fn list_names(names: &Vec<String>) -> (text: String)
    ensures
        text@ == listed(text_views(names@)),
{
    let n: usize = names.len();
    let ghost views = text_views(names@);
    let mut text: String = String::new();
    assert(text@ == listed(views.take(0)));
    for i in 0..n
        invariant
            n == names.len(),
            views == text_views(names@),
            text@ == listed(views.take(i as int)),
    {
        let ghost before = text@;
        assert(views.take(i + 1).drop_last() == views.take(i as int));
        assert(views.take(i + 1).last() == names[i as int]@);
        if i > 0 {
            text.append(", ");
        }
        text.append(names[i].as_str());
        assert(text@ == listed(views.take(i + 1)));
    }
    assert(views.take(n as int) == views);
    text
}

/// `before`, `middle` and `after` in a row.
pub fn sentence(before: &str, middle: &str, after: &str) -> (text: String)
    ensures
        text@ == before@ + middle@ + after@,
{
    let mut text: String = before.to_owned();
    text.append(middle);
    text.append(after);
    text
}

/// The number that a text of decimal digits says.
pub open spec fn number_said(text: Seq<char>) -> int
    decreases text.len(),
{
    if text.len() == 0 {
        0
    } else {
        10 * number_said(text.drop_last()) + (text.last() as int - '0' as int)
    }
}

/// A number in decimal says that number, in digits alone, and without a zero in
/// front but for zero itself.
pub proof fn law_decimal_says_the_number(n: nat)
    ensures
        number_said(decimal(n)) == n,
        decimal(n).len() > 0,
        forall|i: int|
            0 <= i < decimal(n).len() ==> '0' as int <= #[trigger] decimal(n)[i] as int <= '9' as int,
        n > 0 ==> decimal(n)[0] != '0',
    decreases n,
{
    reveal_strlit("0123456789");
    let digit = decimal_digit((n % 10) as int);
    assert(digit as int == '0' as int + n % 10);
    if n < 10 {
        assert(decimal(n).drop_last() =~= seq![]);
        assert(number_said(decimal(n).drop_last()) == 0);
    } else {
        law_decimal_says_the_number(n / 10);
        assert(decimal(n).drop_last() =~= decimal(n / 10));
        assert forall|i: int| 0 <= i < decimal(n).len() implies '0' as int
            <= #[trigger] decimal(n)[i] as int <= '9' as int by {
            if i < decimal(n / 10).len() {
                assert(decimal(n)[i] == decimal(n / 10)[i]);
            }
        }
        assert(decimal(n)[0] == decimal(n / 10)[0]);
    }
}

/// A list of no names is empty, a list of one is that name, and two lists make
/// one with a comma between them.
pub proof fn law_lists_join_at_commas(a: Seq<Seq<char>>, b: Seq<Seq<char>>, name: Seq<char>)
    requires
        a.len() > 0,
        b.len() > 0,
    ensures
        listed(seq![]).len() == 0,
        listed(seq![name]) == name,
        listed(a + b) == listed(a) + ", "@ + listed(b),
    decreases b.len(),
{
    let all = a + b;
    assert(all.drop_last() =~= a + b.drop_last());
    assert(all.last() == b.last());
    if b.len() == 1 {
        assert(all.drop_last() =~= a);
        assert(b.last() == b[0]);
    } else {
        law_lists_join_at_commas(a, b.drop_last(), name);
        assert(listed(all) =~= listed(a) + ", "@ + listed(b));
    }
}

/// What texts say, one by one.
pub proof fn law_texts_one_by_one(texts: Seq<String>, i: int)
    ensures
        text_views(texts).len() == texts.len(),
        0 <= i < texts.len() ==> text_views(texts)[i] == texts[i]@,
{
}

} // verus!
