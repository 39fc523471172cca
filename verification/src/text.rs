//! The texts that a drawing is made of: node names and node labels.

use vstd::prelude::*;
use vstd::string::StringExecFns;

verus! {

pub open spec fn is_letter_or_underscore(c: char) -> bool {
    ('a' <= c && c <= 'z') || ('A' <= c && c <= 'Z') || c == '_'
}

pub open spec fn is_constituent(c: char) -> bool {
    is_letter_or_underscore(c) || ('0' <= c && c <= '9')
}

/// A name that a graph description accepts for a graph or a node: letters,
/// digits and underscores, at least one, the first no digit.
pub open spec fn is_identifier(s: Seq<char>) -> bool {
    &&& s.len() > 0
    &&& is_letter_or_underscore(s[0])
    &&& forall|i: int| 0 <= i < s.len() ==> is_constituent(#[trigger] s[i])
}

pub open spec fn digit_char(d: nat) -> char {
    if d == 0 {
        '0'
    } else if d == 1 {
        '1'
    } else if d == 2 {
        '2'
    } else if d == 3 {
        '3'
    } else if d == 4 {
        '4'
    } else if d == 5 {
        '5'
    } else if d == 6 {
        '6'
    } else if d == 7 {
        '7'
    } else if d == 8 {
        '8'
    } else {
        '9'
    }
}

/// The decimal digits of `n`, most significant first, without leading zeros.
pub open spec fn decimal(n: nat) -> Seq<char>
    decreases n,
{
    if n < 10 {
        seq![digit_char(n)]
    } else {
        decimal(n / 10).push(digit_char(n % 10))
    }
}

/// The name of every graph that is drawn.
pub open spec fn graph_name() -> Seq<char> {
    seq!['b', 'a', 'c', 'k', 't', 'r', 'a', 'c', 'e', 'd']
}

/// The name of the node with arena index `n`: `op` and the index.
pub open spec fn node_name(n: nat) -> Seq<char> {
    seq!['o', 'p'] + decimal(n)
}

/// A node's label: its value, the token of its operator and, where it has
/// a reason, a space and the reason in double quotes.
pub open spec fn label_text(value: Seq<char>, symbol: Seq<char>, reason: Option<Seq<char>>) -> Seq<
    char,
> {
    match reason {
        Some(r) => value + symbol + seq![' ', '"'] + r + seq!['"'],
        None => value + symbol,
    }
}

pub proof fn lemma_decimal_is_digits(n: nat)
    ensures
        decimal(n).len() > 0,
        forall|i: int| 0 <= i < decimal(n).len() ==> is_constituent(#[trigger] decimal(n)[i]),
    decreases n,
{
    if n >= 10 {
        lemma_decimal_is_digits(n / 10);
    }
}

/// Every node name is an identifier.
pub proof fn lemma_node_name_is_identifier(n: nat)
    ensures
        is_identifier(node_name(n)),
{
    lemma_decimal_is_digits(n);
    let name = node_name(n);
    assert(name[0] == 'o');
    assert forall|i: int| 0 <= i < name.len() implies is_constituent(#[trigger] name[i]) by {
        if i >= 2 {
            assert(name[i] == decimal(n)[i - 2]);
        } else if i == 1 {
            assert(name[1] == 'p');
        }
    }
}

fn digit(d: usize) -> (s: &'static str)
    requires
        d < 10,
    ensures
        s@ == seq![digit_char(d as nat)],
{
    proof {
        reveal_strlit("0");
        reveal_strlit("1");
        reveal_strlit("2");
        reveal_strlit("3");
        reveal_strlit("4");
        reveal_strlit("5");
        reveal_strlit("6");
        reveal_strlit("7");
        reveal_strlit("8");
        reveal_strlit("9");
    }
    let s = if d == 0 {
        "0"
    } else if d == 1 {
        "1"
    } else if d == 2 {
        "2"
    } else if d == 3 {
        "3"
    } else if d == 4 {
        "4"
    } else if d == 5 {
        "5"
    } else if d == 6 {
        "6"
    } else if d == 7 {
        "7"
    } else if d == 8 {
        "8"
    } else {
        "9"
    };
    assert(s@ =~= seq![digit_char(d as nat)]);
    s
}

/// `n` in decimal.
pub fn decimal_text(n: usize) -> (s: String)
    ensures
        s@ == decimal(n as nat),
    decreases n,
{
    if n < 10 {
        digit(n).to_owned()
    } else {
        let mut s = decimal_text(n / 10);
        s.append(digit(n % 10));
        assert(s@ =~= decimal(n as nat));
        s
    }
}

/// The name under which the node with arena index `n` is drawn.
pub fn node_name_text(n: usize) -> (s: String)
    ensures
        s@ == node_name(n as nat),
        is_identifier(s@),
{
    proof {
        reveal_strlit("op");
        lemma_node_name_is_identifier(n as nat);
    }
    let mut s = "op".to_owned();
    let digits = decimal_text(n);
    s.append(digits.as_str());
    assert(s@ =~= node_name(n as nat));
    s
}

/// Puts a label together from the text of the value, the operator's token
/// and the reason.
pub fn label(value: &str, symbol: &str, reason: Option<&str>) -> (s: String)
    ensures
        s@ == label_text(
            value@,
            symbol@,
            match reason {
                Some(r) => Some(r@),
                None => None,
            },
        ),
{
    proof {
        reveal_strlit(" \"");
        reveal_strlit("\"");
    }
    let mut s = value.to_owned();
    s.append(symbol);
    match reason {
        Some(r) => {
            s.append(" \"");
            s.append(r);
            s.append("\"");
            assert(s@ =~= value@ + symbol@ + seq![' ', '"'] + r@ + seq!['"']);
        },
        None => {},
    }
    s
}

} // verus!
