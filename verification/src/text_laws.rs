//! Texts can be told apart.
//!
//! A text is *prefix-free* where neither of two texts of different values begins with the
//! other: then a text can be read off the front of a longer one, whatever follows it.

use vstd::prelude::*;

use crate::text::{
    boolean, decimal, digit, integer, joined, list, optional, optional_integer, optional_natural,
    texts, views, Rendered,
};

verus! {

/// Whether two texts agree as far as both go.
pub open spec fn prefix_related(a: Seq<char>, b: Seq<char>) -> bool {
    forall|i: int| 0 <= i < a.len() && i < b.len() ==> #[trigger] a[i] == #[trigger] b[i]
}

/// Whether the texts of different values of a type always part before either ends.
pub open spec fn prefix_free<T: Rendered>() -> bool {
    forall|x: T::V, y: T::V| #[trigger]
        prefix_related(T::text_of(x), T::text_of(y)) ==> x == y
}

/// Texts that agree as far as they go agree on their fronts.
pub proof fn lemma_fronts(a: Seq<char>, s: Seq<char>, b: Seq<char>, t: Seq<char>)
    requires
        prefix_related(a + s, b + t),
    ensures
        prefix_related(a, b),
{
    assert forall|i: int| 0 <= i < a.len() && i < b.len() implies #[trigger] a[i] == #[trigger] b[i] by {
        assert((a + s)[i] == a[i]);
        assert((b + t)[i] == b[i]);
    }
}

/// Texts that agree as far as they go agree on what follows a common front.
pub proof fn lemma_backs(a: Seq<char>, s: Seq<char>, t: Seq<char>)
    requires
        prefix_related(a + s, a + t),
    ensures
        prefix_related(s, t),
{
    assert forall|i: int| 0 <= i < s.len() && i < t.len() implies #[trigger] s[i] == #[trigger] t[i] by {
        assert((a + s)[a.len() + i] == s[i]);
        assert((a + t)[a.len() + i] == t[i]);
    }
}

/// A text of a prefix-free type can be read off the front of a longer one.
pub proof fn lemma_read_off<T: Rendered>(x: T::V, s: Seq<char>, y: T::V, t: Seq<char>)
    requires
        prefix_free::<T>(),
        prefix_related(T::text_of(x) + s, T::text_of(y) + t),
    ensures
        x == y,
        prefix_related(s, t),
{
    lemma_fronts(T::text_of(x), s, T::text_of(y), t);
    lemma_backs(T::text_of(x), s, t);
}

/// Whether a character is a decimal digit.
pub open spec fn is_digit(c: char) -> bool {
    '0' <= c <= '9'
}

proof fn lemma_decimal_digits(n: nat)
    ensures
        decimal(n).len() > 0,
        forall|i: int| 0 <= i < decimal(n).len() ==> is_digit(#[trigger] decimal(n)[i]),
    decreases n,
{
    if n >= 10 {
        lemma_decimal_digits(n / 10);
    }
}

proof fn lemma_digits_differ(a: nat, b: nat)
    requires
        a < 10,
        b < 10,
        digit(a) == digit(b),
    ensures
        a == b,
{
}

/// Different numbers have different decimals.
pub proof fn decimals_differ(a: nat, b: nat)
    requires
        decimal(a) == decimal(b),
    ensures
        a == b,
    decreases a,
{
    lemma_decimal_digits(a / 10);
    lemma_decimal_digits(b / 10);
    if a < 10 {
        assert(decimal(a).len() == 1);
        assert(b < 10);
        assert(decimal(a)[0] == digit(a));
        assert(decimal(b)[0] == digit(b));
        lemma_digits_differ(a, b);
    } else {
        assert(decimal(a).drop_last() =~= decimal(a / 10));
        assert(decimal(a).len() >= 2);
        assert(b >= 10);
        assert(decimal(b).drop_last() =~= decimal(b / 10));
        assert(decimal(a).last() == digit(a % 10));
        assert(decimal(b).last() == digit(b % 10));
        decimals_differ(a / 10, b / 10);
        lemma_digits_differ(a % 10, b % 10);
    }
}

/// A decimal that something other than a digit follows can be read off the front.
pub proof fn lemma_read_decimal(a: nat, s: Seq<char>, b: nat, t: Seq<char>)
    requires
        prefix_related(decimal(a) + s, decimal(b) + t),
        s.len() > 0,
        t.len() > 0,
        !is_digit(s[0]),
        !is_digit(t[0]),
    ensures
        a == b,
        prefix_related(s, t),
{
    lemma_decimal_digits(a);
    lemma_decimal_digits(b);
    let x = decimal(a);
    let y = decimal(b);
    if x.len() < y.len() {
        assert((x + s)[x.len() as int] == s[0]);
        assert((y + t)[x.len() as int] == y[x.len() as int]);
    }
    if y.len() < x.len() {
        assert((y + t)[y.len() as int] == t[0]);
        assert((x + s)[y.len() as int] == x[y.len() as int]);
    }
    lemma_fronts(x, s, y, t);
    assert(x =~= y);
    decimals_differ(a, b);
    lemma_backs(x, s, t);
}

/// An integer that something other than a digit follows can be read off the front.
pub proof fn lemma_read_integer(a: int, s: Seq<char>, b: int, t: Seq<char>)
    requires
        prefix_related(integer(a) + s, integer(b) + t),
        s.len() > 0,
        t.len() > 0,
        !is_digit(s[0]),
        !is_digit(t[0]),
    ensures
        a == b,
        prefix_related(s, t),
{
    reveal_strlit("-");
    let x = integer(a) + s;
    let y = integer(b) + t;
    if a >= 0 {
        lemma_decimal_digits(a as nat);
        assert(x[0] == decimal(a as nat)[0]);
    } else {
        assert(x[0] == '-');
    }
    if b >= 0 {
        lemma_decimal_digits(b as nat);
        assert(y[0] == decimal(b as nat)[0]);
    } else {
        assert(y[0] == '-');
    }
    if a >= 0 && b >= 0 {
        lemma_read_decimal(a as nat, s, b as nat, t);
    } else if a < 0 && b < 0 {
        assert(x =~= "-"@ + (decimal((-a) as nat) + s));
        assert(y =~= "-"@ + (decimal((-b) as nat) + t));
        lemma_backs("-"@, decimal((-a) as nat) + s, decimal((-b) as nat) + t);
        lemma_read_decimal((-a) as nat, s, (-b) as nat, t);
    }
}

/// The text of a present value is not that of an absent one, and what it holds can be read
/// off it.
pub proof fn lemma_read_optional(a: Option<Seq<char>>, s: Seq<char>, b: Option<Seq<char>>, t: Seq<char>)
    requires
        prefix_related(optional(a) + s, optional(b) + t),
    ensures
        a is Some <==> b is Some,
        a is Some ==> prefix_related(a->0 + (")"@ + s), b->0 + (")"@ + t)),
        a is None ==> prefix_related(s, t),
{
    reveal_strlit("None");
    reveal_strlit("Some(");
    let x = optional(a) + s;
    let y = optional(b) + t;
    assert(x[0] == if a is Some {
        'S'
    } else {
        'N'
    });
    assert(y[0] == if b is Some {
        'S'
    } else {
        'N'
    });
    match (a, b) {
        (Some(a), Some(b)) => {
            assert(x =~= "Some("@ + (a + (")"@ + s)));
            assert(y =~= "Some("@ + (b + (")"@ + t)));
            lemma_backs("Some("@, a + (")"@ + s), b + (")"@ + t));
        },
        _ => {
            if a is None && b is None {
                lemma_backs("None"@, s, t);
            }
        },
    }
}

/// Different optional integers have different texts.
pub proof fn optional_integers_differ(a: Option<i32>, b: Option<i32>)
    requires
        optional_integer(a) == optional_integer(b),
    ensures
        a == b,
{
    reveal_strlit(")");
    let none = Seq::<char>::empty();
    let x = match a {
        None => None,
        Some(a) => Some(integer(a as int)),
    };
    let y = match b {
        None => None,
        Some(b) => Some(integer(b as int)),
    };
    lemma_read_optional(x, none, y, none);
    if a is Some {
        lemma_read_integer(a->0 as int, ")"@ + none, b->0 as int, ")"@ + none);
    }
}

/// Different optional natural numbers have different texts.
pub proof fn optional_naturals_differ(a: Option<u32>, b: Option<u32>)
    requires
        optional_natural(a) == optional_natural(b),
    ensures
        a == b,
{
    reveal_strlit(")");
    let none = Seq::<char>::empty();
    let x = match a {
        None => None,
        Some(a) => Some(decimal(a as nat)),
    };
    let y = match b {
        None => None,
        Some(b) => Some(decimal(b as nat)),
    };
    lemma_read_optional(x, none, y, none);
    if a is Some {
        lemma_read_decimal(a->0 as nat, ")"@ + none, b->0 as nat, ")"@ + none);
    }
}

/// The two truth values have different texts.
pub proof fn booleans_differ(a: bool, b: bool)
    requires
        boolean(a) == boolean(b),
    ensures
        a == b,
{
    reveal_strlit("true");
    reveal_strlit("false");
    assert(boolean(a).len() == if a {
        4int
    } else {
        5int
    });
    assert(boolean(b).len() == if b {
        4int
    } else {
        5int
    });
}

/// The items of a list, each with the separator before it.
spec fn separated(items: Seq<Seq<char>>) -> Seq<char>
    decreases items.len(),
{
    if items.len() == 0 {
        Seq::empty()
    } else {
        ", "@ + items[0] + separated(items.drop_first())
    }
}

proof fn lemma_separated_push(items: Seq<Seq<char>>, last: Seq<char>)
    ensures
        separated(items.push(last)) == separated(items) + ", "@ + last,
    decreases items.len(),
{
    let more = items.push(last);
    if items.len() == 0 {
        assert(more.drop_first() =~= items);
        assert(separated(more) =~= separated(items) + ", "@ + last);
    } else {
        lemma_separated_push(items.drop_first(), last);
        assert(more.drop_first() =~= items.drop_first().push(last));
        assert(separated(more) =~= separated(items) + ", "@ + last);
    }
}

proof fn lemma_joined(items: Seq<Seq<char>>)
    requires
        items.len() > 0,
    ensures
        joined(items, ", "@) == items[0] + separated(items.drop_first()),
    decreases items.len(),
{
    if items.len() == 1 {
        assert(items.drop_first() =~= Seq::empty());
        assert(joined(items, ", "@) =~= items[0] + separated(items.drop_first()));
    } else {
        lemma_joined(items.drop_last());
        lemma_separated_push(items.drop_last().drop_first(), items.last());
        assert(items.drop_last().drop_first().push(items.last()) =~= items.drop_first());
        assert(joined(items, ", "@) =~= items[0] + separated(items.drop_first()));
    }
}

proof fn lemma_read_separated<T: Rendered>(
    xs: Seq<T::V>,
    s: Seq<char>,
    ys: Seq<T::V>,
    t: Seq<char>,
)
    requires
        prefix_free::<T>(),
        prefix_related(separated(texts::<T>(xs)) + ("]"@ + s), separated(texts::<T>(ys)) + ("]"@ + t)),
    ensures
        xs == ys,
        prefix_related(s, t),
    decreases xs.len(),
{
    reveal_strlit("]");
    reveal_strlit(", ");
    let xt = texts::<T>(xs);
    let yt = texts::<T>(ys);
    let x = separated(xt) + ("]"@ + s);
    let y = separated(yt) + ("]"@ + t);
    assert(x[0] == if xs.len() > 0 {
        ','
    } else {
        ']'
    });
    assert(y[0] == if ys.len() > 0 {
        ','
    } else {
        ']'
    });
    if xs.len() == 0 {
        assert(xs =~= ys);
        assert(x =~= "]"@ + s);
        assert(y =~= "]"@ + t);
        lemma_backs("]"@, s, t);
    } else {
        let x_rest = separated(xt.drop_first()) + ("]"@ + s);
        let y_rest = separated(yt.drop_first()) + ("]"@ + t);
        assert(x =~= ", "@ + (T::text_of(xs[0]) + x_rest));
        assert(y =~= ", "@ + (T::text_of(ys[0]) + y_rest));
        lemma_backs(", "@, T::text_of(xs[0]) + x_rest, T::text_of(ys[0]) + y_rest);
        lemma_read_off::<T>(xs[0], x_rest, ys[0], y_rest);
        assert(texts::<T>(xs.drop_first()) =~= xt.drop_first());
        assert(texts::<T>(ys.drop_first()) =~= yt.drop_first());
        lemma_read_separated::<T>(xs.drop_first(), s, ys.drop_first(), t);
        assert(xs =~= seq![xs[0]] + xs.drop_first());
        assert(ys =~= seq![ys[0]] + ys.drop_first());
    }
}

/// Whether the texts of a type start like no end of a list does.
pub open spec fn starts_an_item<T: Rendered>() -> bool {
    forall|x: T::V| (#[trigger] T::text_of(x)).len() > 0 && T::text_of(x)[0] != ']'
}

/// A list of items with prefix-free texts can be read off the front of a longer text: which
/// items it has, and in which order.
pub proof fn lemma_read_list<T: Rendered>(xs: Seq<T::V>, s: Seq<char>, ys: Seq<T::V>, t: Seq<char>)
    requires
        prefix_free::<T>(),
        starts_an_item::<T>(),
        prefix_related(list(texts::<T>(xs)) + s, list(texts::<T>(ys)) + t),
    ensures
        xs == ys,
        prefix_related(s, t),
{
    reveal_strlit("[");
    reveal_strlit("]");
    let xt = texts::<T>(xs);
    let yt = texts::<T>(ys);
    let x = joined(xt, ", "@) + ("]"@ + s);
    let y = joined(yt, ", "@) + ("]"@ + t);
    assert(list(xt) + s =~= "["@ + x);
    assert(list(yt) + t =~= "["@ + y);
    lemma_backs("["@, x, y);
    if xs.len() == 0 {
        assert(x =~= "]"@ + s);
        assert(x[0] == ']');
    } else {
        lemma_joined(xt);
        assert(xt[0] == T::text_of(xs[0]));
        assert(x[0] == T::text_of(xs[0])[0]);
    }
    if ys.len() == 0 {
        assert(y =~= "]"@ + t);
        assert(y[0] == ']');
    } else {
        lemma_joined(yt);
        assert(yt[0] == T::text_of(ys[0]));
        assert(y[0] == T::text_of(ys[0])[0]);
    }
    if xs.len() == 0 {
        assert(xs =~= ys);
        lemma_backs("]"@, s, t);
    } else {
        let x_rest = separated(xt.drop_first()) + ("]"@ + s);
        let y_rest = separated(yt.drop_first()) + ("]"@ + t);
        assert(x =~= T::text_of(xs[0]) + x_rest);
        assert(y =~= T::text_of(ys[0]) + y_rest);
        lemma_read_off::<T>(xs[0], x_rest, ys[0], y_rest);
        assert(texts::<T>(xs.drop_first()) =~= xt.drop_first());
        assert(texts::<T>(ys.drop_first()) =~= yt.drop_first());
        lemma_read_separated::<T>(xs.drop_first(), s, ys.drop_first(), t);
        assert(xs =~= seq![xs[0]] + xs.drop_first());
        assert(ys =~= seq![ys[0]] + ys.drop_first());
    }
}

/// Different lists of items with prefix-free texts have different texts. In particular the
/// order of the items shows.
pub proof fn lists_differ<T: Rendered>(xs: Seq<T::V>, ys: Seq<T::V>)
    requires
        prefix_free::<T>(),
        starts_an_item::<T>(),
        list(texts::<T>(xs)) == list(texts::<T>(ys)),
    ensures
        xs == ys,
{
    lemma_read_list::<T>(xs, Seq::empty(), ys, Seq::empty());
}

/// The number that a row of digits stands for.
pub open spec fn number(digits: Seq<char>) -> int
    decreases digits.len(),
{
    if digits.len() == 0 {
        0
    } else {
        10 * number(digits.drop_last()) + (digits.last() as int - '0' as int)
    }
}

/// A decimal reads back as the number it was made of, and has no leading zero.
pub proof fn decimals_read_back(n: nat)
    ensures
        number(decimal(n)) == n,
        decimal(n).len() > 0,
        forall|i: int| 0 <= i < decimal(n).len() ==> '0' <= (#[trigger] decimal(n)[i]) <= '9',
        n > 0 ==> decimal(n)[0] != '0',
        n == 0 ==> decimal(n).len() == 1,
    decreases n,
{
    lemma_decimal_digits(n);
    if n < 10 {
        assert(decimal(n).drop_last() =~= Seq::<char>::empty());
        assert(number(Seq::<char>::empty()) == 0);
    } else {
        decimals_read_back(n / 10);
        assert(decimal(n).drop_last() =~= decimal(n / 10));
        assert(decimal(n)[0] == decimal(n / 10)[0]);
    }
}

/// An integer is written as the decimal of its size, after a minus sign where it is negative.
pub proof fn integers_read_back(i: int)
    ensures
        i >= 0 ==> number(integer(i)) == i && '0' <= integer(i)[0] <= '9',
        i < 0 ==> integer(i)[0] == '-' && number(integer(i).skip(1)) == -i,
{
    reveal_strlit("-");
    if i >= 0 {
        decimals_read_back(i as nat);
    } else {
        decimals_read_back((-i) as nat);
        assert(integer(i).skip(1) =~= decimal((-i) as nat));
    }
}

/// Truth values and optional values are written as they are called.
pub proof fn plain_values_are_written_out(b: bool, content: Option<Seq<char>>)
    ensures
        boolean(b) == (if b {
            "true"@
        } else {
            "false"@
        }),
        content is None ==> optional(content) == "None"@,
        content is Some ==> optional(content) == "Some("@ + content->0 + ")"@,
{
}

/// Optional numbers are written as numbers, where they are there.
pub proof fn optional_numbers_are_written_out(i: Option<i32>, n: Option<u32>)
    ensures
        i is None ==> optional_integer(i) == "None"@,
        i is Some ==> optional_integer(i) == "Some("@ + integer(i->0 as int) + ")"@,
        n is None ==> optional_natural(n) == "None"@,
        n is Some ==> optional_natural(n) == "Some("@ + decimal(n->0 as nat) + ")"@,
{
}

/// Joining two lists joins what each is joined to; one item is joined to itself.
pub proof fn joining_goes_item_by_item(
    a: Seq<Seq<char>>,
    b: Seq<Seq<char>>,
    item: Seq<char>,
    separator: Seq<char>,
)
    ensures
        joined(Seq::empty(), separator).len() == 0,
        joined(seq![item], separator) == item,
        a.len() > 0 && b.len() > 0 ==> joined(a + b, separator) == joined(a, separator) + separator
            + joined(b, separator),
    decreases b.len(),
{
    if a.len() > 0 && b.len() > 0 {
        assert((a + b).drop_last() =~= a + b.drop_last());
        if b.len() > 1 {
            joining_goes_item_by_item(a, b.drop_last(), item, separator);
        } else {
            assert(a + b.drop_last() =~= a);
        }
        assert(joined(a + b, separator) =~= joined(a, separator) + separator + joined(b, separator));
    }
}

/// A list is its items, each rendered, with commas between them and brackets around them.
pub proof fn lists_are_written_item_by_item<T: Rendered>(items: Seq<T::V>, i: int)
    ensures
        list(texts::<T>(items)) == "["@ + joined(texts::<T>(items), ", "@) + "]"@,
        texts::<T>(items).len() == items.len(),
        0 <= i < items.len() ==> texts::<T>(items)[i] == T::text_of(items[i]),
{
}

/// The views of a row of values are the views of each, in their places.
pub proof fn views_go_item_by_item<T: View>(items: Seq<T>, i: int)
    ensures
        views(items).len() == items.len(),
        0 <= i < items.len() ==> views(items)[i] == items[i]@,
{
}

} // verus!
