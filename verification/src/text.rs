use vstd::prelude::*;

verus! {

/// The character of a decimal digit.
pub open spec fn digit_char(d: int) -> char {
    if d == 0 {
        '0'
    } else if d == 1 {
        '1'
    } else if d == 2 {
        '2'
    } else if d == 3 {
        '3'
    } else if d == 4 {
        '4'
    } else if d == 5 {
        '5'
    } else if d == 6 {
        '6'
    } else if d == 7 {
        '7'
    } else if d == 8 {
        '8'
    } else {
        '9'
    }
}

/// The decimal numeral of `n`, without sign or padding.
pub open spec fn decimal(n: nat) -> Seq<char>
    decreases n,
{
    if n < 10 {
        seq![digit_char(n as int)]
    } else {
        decimal(n / 10) + seq![digit_char((n % 10) as int)]
    }
}

fn digit(d: u64) -> (r: &'static str)
    requires
        d < 10,
    ensures
        r@ == seq![digit_char(d as int)],
{
    proof {
        reveal_strlit("0");
        reveal_strlit("1");
        reveal_strlit("2");
        reveal_strlit("3");
        reveal_strlit("4");
        reveal_strlit("5");
        reveal_strlit("6");
        reveal_strlit("7");
        reveal_strlit("8");
        reveal_strlit("9");
    }
    let r = if d == 0 {
        "0"
    } else if d == 1 {
        "1"
    } else if d == 2 {
        "2"
    } else if d == 3 {
        "3"
    } else if d == 4 {
        "4"
    } else if d == 5 {
        "5"
    } else if d == 6 {
        "6"
    } else if d == 7 {
        "7"
    } else if d == 8 {
        "8"
    } else {
        "9"
    };
    assert(r@ =~= seq![digit_char(d as int)]);
    r
}

/// Appends the decimal numeral of `n` to `out`.
pub fn push_decimal(out: &mut String, n: u64)
    ensures
        final(out)@ == old(out)@ + decimal(n as nat),
    decreases n,
{
    if n >= 10 {
        push_decimal(out, n / 10);
    }
    out.append(digit(n % 10));
    assert(final(out)@ =~= old(out)@ + decimal(n as nat));
}

/// The decimal numeral of `n`.
pub fn decimal_string(n: u64) -> (r: String)
    ensures
        r@ == decimal(n as nat),
{
    let mut r = String::new();
    push_decimal(&mut r, n);
    assert(r@ =~= decimal(n as nat));
    r
}

/// `n` blanks.
pub open spec fn blanks(n: int) -> Seq<char> {
    Seq::new(
        if n < 0 {
            0
        } else {
            n as nat
        },
        |i: int| ' ',
    )
}

/// `text` centred in a field of `width` characters; where the padding is
/// odd, the extra blank goes to the right. A longer text is left as it is.
pub open spec fn centred(text: Seq<char>, width: int) -> Seq<char> {
    if text.len() >= width {
        text
    } else {
        blanks((width - text.len()) / 2) + text + blanks(
            width - text.len() - (width - text.len()) / 2,
        )
    }
}

/// `text` at the right of a field of `width` characters. A longer text is left as it is.
pub open spec fn flushed_right(text: Seq<char>, width: int) -> Seq<char> {
    blanks(width - text.len()) + text
}

/// The first `limit` characters of `text` followed by three dots, where
/// `text` is longer than `limit`; else `text`.
pub open spec fn shortened(text: Seq<char>, limit: int) -> Seq<char> {
    if 0 <= limit < text.len() {
        text.subrange(0, limit) + "..."@
    } else {
        text
    }
}

/// Appends `n` blanks to `out`.
pub fn push_blanks(out: &mut String, n: usize)
    ensures
        final(out)@ == old(out)@ + blanks(n as int),
{
    proof {
        reveal_strlit(" ");
    }
    let mut i: usize = 0;
    assert(out@ =~= old(out)@ + blanks(0));
    while i < n
        invariant
            i <= n,
            out@ == old(out)@ + blanks(i as int),
            " "@ == seq![' '],
        decreases n - i,
    {
        out.append(" ");
        assert(out@ =~= old(out)@ + blanks(i + 1));
        i += 1;
    }
}

/// `text` centred in a field of `width` characters.
pub fn centre(text: &str, width: usize) -> (r: String)
    ensures
        r@ == centred(text@, width as int),
{
    let n = text.unicode_len();
    let mut r = String::new();
    if n >= width {
        r.append(text);
        assert(r@ =~= text@);
    } else {
        let left = (width - n) / 2;
        push_blanks(&mut r, left);
        r.append(text);
        push_blanks(&mut r, width - n - left);
        assert(r@ =~= centred(text@, width as int));
    }
    r
}

/// `text` at the right of a field of `width` characters.
pub fn flush_right(text: &str, width: usize) -> (r: String)
    ensures
        r@ == flushed_right(text@, width as int),
{
    let n = text.unicode_len();
    let mut r = String::new();
    if n < width {
        push_blanks(&mut r, width - n);
    }
    r.append(text);
    assert(r@ =~= flushed_right(text@, width as int));
    r
}

/// `text` cut to `limit` characters and marked with three dots, where it is longer.
pub fn shorten(text: &str, limit: usize) -> (r: String)
    ensures
        r@ == shortened(text@, limit as int),
{
    let n = text.unicode_len();
    let mut r = String::new();
    if limit < n {
        r.append(text.substring_char(0, limit));
        r.append("...");
        assert(r@ =~= shortened(text@, limit as int));
    } else {
        r.append(text);
        assert(r@ =~= text@);
    }
    r
}

} // verus!
