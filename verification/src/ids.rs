use vstd::prelude::*;

use crate::text::{decimal, decimal_digits, digit_char, push_decimal, push_str};

verus! {

/// A JSON-RPC request id.
#[derive(Debug, Clone)]
pub enum RequestId {
    Number(i64),
    String(String),
    Null,
}

/// A request id as a mathematical value.
pub enum IdView {
    Number(int),
    Str(Seq<char>),
    Null,
}

impl View for RequestId {
    type V = IdView;

    open spec fn view(&self) -> IdView {
        match self {
            RequestId::Number(n) => IdView::Number(*n as int),
            RequestId::String(s) => IdView::Str(s@),
            RequestId::Null => IdView::Null,
        }
    }
}

/// The text of `s` as `Debug` writes a string: quoted, with escapes.
pub uninterp spec fn debug_quoted(s: Seq<char>) -> Seq<char>;

/// Trusted: `Debug` of `str`, which writes the string in double quotes with
/// its special characters escaped; the result is named by `debug_quoted`.
#[verifier::external_body]
fn str_debug(s: &str) -> (r: String)
    ensures
        r@ == debug_quoted(s@),
{
    format!("{:?}", s)
}

/// The text of an id as the JSON-RPC crate displays it: a number in
/// decimal, a string quoted, or `null`.
pub open spec fn id_text(id: IdView) -> Seq<char> {
    match id {
        IdView::Number(n) => decimal(n),
        IdView::Str(s) => debug_quoted(s),
        IdView::Null => "null"@,
    }
}

impl RequestId {
    /// Whether two ids are the same.
    pub fn same(&self, other: &RequestId) -> (r: bool)
        ensures
            r == (self@ == other@),
    {
        match (self, other) {
            (RequestId::Number(a), RequestId::Number(b)) => *a == *b,
            (RequestId::String(a), RequestId::String(b)) => *a == *b,
            (RequestId::Null, RequestId::Null) => true,
            _ => false,
        }
    }

    /// Appends the text of the id, see [`id_text`].
    pub fn push_text(&self, out: &mut String)
        ensures
            final(out)@ == old(out)@ + id_text(self@),
    {
        match self {
            RequestId::Number(n) => push_decimal(out, *n),
            RequestId::String(s) => {
                let q = str_debug(s.as_str());
                push_str(out, q.as_str());
            },
            RequestId::Null => push_str(out, "null"),
        }
    }
}

/// The id given out for counter value `index`: the prefix followed by the
/// decimal index, or the bare number without a prefix.
pub open spec fn id_for(prefix: Option<Seq<char>>, index: int) -> IdView {
    match prefix {
        Some(p) => IdView::Str(p + decimal(index)),
        None => IdView::Number(index),
    }
}

/// The counter value after `i`, wrapping from the largest `i64` to the smallest.
pub open spec fn next_index(i: i64) -> i64 {
    if i == i64::MAX {
        i64::MIN
    } else {
        (i + 1) as i64
    }
}

/// Gives out request ids from a counter, each with an optional prefix.
pub struct UniqueIdIter {
    index: i64,
    prefix: Option<String>,
}

impl UniqueIdIter {
    pub closed spec fn index(self) -> i64 {
        self.index
    }

    pub closed spec fn prefix(self) -> Option<Seq<char>> {
        match self.prefix {
            Some(p) => Some(p@),
            None => None,
        }
    }

    /// Ids that count from 0 as bare numbers.
    pub fn new() -> (r: Self)
        ensures
            r.index() == 0,
            r.prefix() is None,
    {
        UniqueIdIter { index: 0, prefix: None }
    }

    /// Ids that count from 0, each written after `prefix`.
    pub fn with_prefix(prefix: &str) -> (r: Self)
        ensures
            r.index() == 0,
            r.prefix() == Some(prefix@),
    {
        UniqueIdIter { index: 0, prefix: Some(prefix.to_owned()) }
    }

    /// The id for the current counter value; the counter moves on by one.
    pub fn next(&mut self) -> (r: RequestId)
        ensures
            r@ == id_for(old(self).prefix(), old(self).index() as int),
            final(self).index() == next_index(old(self).index()),
            final(self).prefix() == old(self).prefix(),
    {
        let current = self.index;
        self.index = if current == i64::MAX {
            i64::MIN
        } else {
            current + 1
        };
        match &self.prefix {
            Some(p) => {
                let mut s = String::new();
                push_str(&mut s, p.as_str());
                push_decimal(&mut s, current);
                RequestId::String(s)
            },
            None => RequestId::Number(current),
        }
    }
}

proof fn lemma_digits_are_digits(n: nat)
    ensures
        decimal_digits(n).len() >= 1,
        forall|i: int| 0 <= i < decimal_digits(n).len() ==> '0' <= #[trigger] decimal_digits(n)[i] <= '9',
    decreases n,
{
    if n >= 10 {
        lemma_digits_are_digits(n / 10);
    }
}

proof fn lemma_digits_injective(m: nat, n: nat)
    requires
        decimal_digits(m) == decimal_digits(n),
    ensures
        m == n,
    decreases n,
{
    lemma_digits_are_digits(m);
    lemma_digits_are_digits(n);
    if m < 10 && n < 10 {
        assert(decimal_digits(m)[0] == digit_char(m as int));
        assert(decimal_digits(n)[0] == digit_char(n as int));
    } else if m >= 10 && n >= 10 {
        lemma_digits_are_digits(m / 10);
        lemma_digits_are_digits(n / 10);
        assert(decimal_digits(m).drop_last() =~= decimal_digits(m / 10));
        assert(decimal_digits(n).drop_last() =~= decimal_digits(n / 10));
        assert(decimal_digits(m).last() == digit_char((m % 10) as int));
        assert(decimal_digits(n).last() == digit_char((n % 10) as int));
        lemma_digits_injective(m / 10, n / 10);
    } else if m < 10 {
        lemma_digits_are_digits(n / 10);
        assert(decimal_digits(n).len() >= 2);
    } else {
        lemma_digits_are_digits(m / 10);
        assert(decimal_digits(m).len() >= 2);
    }
}

/// Different integers have different decimal texts.
pub proof fn lemma_decimal_injective(a: int, b: int)
    requires
        a != b,
    ensures
        decimal(a) != decimal(b),
{
    if decimal(a) == decimal(b) {
        if a < 0 && b < 0 {
            assert(decimal_digits((-a) as nat) =~= decimal(a).drop_first());
            assert(decimal_digits((-b) as nat) =~= decimal(b).drop_first());
            lemma_digits_injective((-a) as nat, (-b) as nat);
        } else if a >= 0 && b >= 0 {
            lemma_digits_injective(a as nat, b as nat);
        } else if a < 0 {
            lemma_digits_are_digits(b as nat);
            assert(decimal(a)[0] == '-');
            assert('0' <= decimal(b)[0] <= '9');
        } else {
            lemma_digits_are_digits(a as nat);
            assert(decimal(b)[0] == '-');
            assert('0' <= decimal(a)[0] <= '9');
        }
    }
}

/// Ids made from different counter values differ, whatever the prefix: so
/// the ids handed out are unique until the counter has gone all the way
/// round.
pub proof fn lemma_ids_unique(prefix: Option<Seq<char>>, a: int, b: int)
    requires
        a != b,
    ensures
        id_for(prefix, a) != id_for(prefix, b),
{
    if let Some(p) = prefix {
        lemma_decimal_injective(a, b);
        if p + decimal(a) == p + decimal(b) {
            assert((p + decimal(a)).subrange(p.len() as int, (p + decimal(a)).len() as int) =~= decimal(a));
            assert((p + decimal(b)).subrange(p.len() as int, (p + decimal(b)).len() as int) =~= decimal(b));
        }
    }
}

} // verus!
