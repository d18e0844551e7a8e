use vstd::prelude::*;

verus! {

/// Identifier of a basic block: either a textual label or a numbered
/// register, as source languages commonly provide both.
#[derive(Debug)]
pub enum Name {
    Ident(String),
    Number(usize),
}

/// Mathematical value of a [`Name`].
pub enum NameV {
    Ident(Seq<char>),
    Number(int),
}

impl View for Name {
    type V = NameV;

    open spec fn view(&self) -> NameV {
        match self {
            Name::Ident(s) => NameV::Ident(s@),
            Name::Number(n) => NameV::Number(*n as int),
        }
    }
}

impl Clone for Name {
    fn clone(&self) -> (r: Self)
        ensures
            r == *self,
    {
        match self {
            Name::Ident(s) => Name::Ident(s.clone()),
            Name::Number(n) => Name::Number(*n),
        }
    }
}

impl PartialEq for Name {
    fn eq(&self, other: &Self) -> (r: bool) {
        match (self, other) {
            (Name::Ident(a), Name::Ident(b)) => *a == *b,
            (Name::Number(a), Name::Number(b)) => *a == *b,
            _ => false,
        }
    }
}

impl vstd::std_specs::cmp::PartialEqSpecImpl for Name {
    open spec fn obeys_eq_spec() -> bool {
        true
    }

    open spec fn eq_spec(&self, other: &Self) -> bool {
        self@ == other@
    }
}

impl Eq for Name {}

/// The character of one decimal digit.
pub open spec fn digit_char(d: nat) -> char {
    if d == 0 {
        '0'
    } else if d == 1 {
        '1'
    } else if d == 2 {
        '2'
    } else if d == 3 {
        '3'
    } else if d == 4 {
        '4'
    } else if d == 5 {
        '5'
    } else if d == 6 {
        '6'
    } else if d == 7 {
        '7'
    } else if d == 8 {
        '8'
    } else {
        '9'
    }
}

/// The decimal digits of `n`, most significant first, without leading zeros.
pub open spec fn dec_chars(n: nat) -> Seq<char>
    decreases n,
{
    if n < 10 {
        seq![digit_char(n)]
    } else {
        dec_chars(n / 10).push(digit_char(n % 10))
    }
}

/// The fixed prefix of every generated temporary name.
pub open spec fn temp_prefix() -> Seq<char> {
    seq![
        '@',
        'D',
        'E',
        'C',
        'O',
        'M',
        'P',
        '_',
        'T',
        'E',
        'M',
        'P',
        'O',
        'R',
        'A',
        'R',
        'Y',
        '_',
    ]
}

/// The name of the temporary with counter value `n`.
pub open spec fn temp_name_v(n: nat) -> NameV {
    NameV::Ident(temp_prefix() + dec_chars(n))
}

/// Different numbers render to different digit strings.
pub proof fn lemma_dec_chars_injective(a: nat, b: nat)
    requires
        dec_chars(a) == dec_chars(b),
    ensures
        a == b,
    decreases a,
{
    if a < 10 && b < 10 {
        assert(dec_chars(a)[0] == digit_char(a));
        assert(dec_chars(b)[0] == digit_char(b));
    } else if a < 10 {
        assert(dec_chars(a).len() == 1);
        assert(dec_chars(b).len() == dec_chars(b / 10).len() + 1);
        assert(dec_chars(b / 10).len() >= 1) by {
            lemma_dec_chars_nonempty(b / 10);
        }
    } else if b < 10 {
        assert(dec_chars(b).len() == 1);
        assert(dec_chars(a).len() == dec_chars(a / 10).len() + 1);
        assert(dec_chars(a / 10).len() >= 1) by {
            lemma_dec_chars_nonempty(a / 10);
        }
    } else {
        assert(dec_chars(a).last() == digit_char(a % 10));
        assert(dec_chars(b).last() == digit_char(b % 10));
        assert(a % 10 == b % 10);
        assert(dec_chars(a).drop_last() =~= dec_chars(a / 10));
        assert(dec_chars(b).drop_last() =~= dec_chars(b / 10));
        lemma_dec_chars_injective(a / 10, b / 10);
        assert(a == 10 * (a / 10) + a % 10);
        assert(b == 10 * (b / 10) + b % 10);
    }
}

proof fn lemma_dec_chars_nonempty(n: nat)
    ensures
        dec_chars(n).len() >= 1,
    decreases n,
{
    if n >= 10 {
        lemma_dec_chars_nonempty(n / 10);
    }
}

/// Different counter values give different temporary names.
pub proof fn lemma_temp_name_injective(a: nat, b: nat)
    requires
        temp_name_v(a) == temp_name_v(b),
    ensures
        a == b,
{
    let p = temp_prefix();
    let sa = p + dec_chars(a);
    let sb = p + dec_chars(b);
    assert(sa == sb);
    assert(dec_chars(a) =~= sa.subrange(p.len() as int, sa.len() as int));
    assert(dec_chars(b) =~= sb.subrange(p.len() as int, sb.len() as int));
    lemma_dec_chars_injective(a, b);
}

/// Relies on `format!` with `u128`'s `Display` implementation: the result is
/// the fixed prefix followed by the decimal digits of `n`, without sign,
/// padding or leading zeros.
#[verifier::external_body]
pub(crate) fn temp_name_text(n: u128) -> (r: String)
    ensures
        r@ == temp_prefix() + dec_chars(n as nat),
{
    format!("@DECOMP_TEMPORARY_{}", n)
}

} // verus!
