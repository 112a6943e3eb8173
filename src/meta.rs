use crate::error::Error;
use vstd::prelude::*;

verus! {

/// The character of a decimal digit.
pub open spec fn digit_char(d: nat) -> char {
    if d == 0 {
        '0'
    } else if d == 1 {
        '1'
    } else if d == 2 {
        '2'
    } else if d == 3 {
        '3'
    } else if d == 4 {
        '4'
    } else if d == 5 {
        '5'
    } else if d == 6 {
        '6'
    } else if d == 7 {
        '7'
    } else if d == 8 {
        '8'
    } else {
        '9'
    }
}

/// The decimal form of a natural number, without leading zeros.
pub open spec fn decimal(n: nat) -> Seq<char>
    decreases n,
{
    if n < 10 {
        seq![digit_char(n)]
    } else {
        decimal(n / 10).push(digit_char(n % 10))
    }
}

/// The one-character string of a decimal digit.
fn digit_str(d: u8) -> (r: &'static str)
    requires
        d < 10,
    ensures
        r@ == seq![digit_char(d as nat)],
{
    if d == 0 {
        proof { reveal_strlit("0"); }
        "0"
    } else if d == 1 {
        proof { reveal_strlit("1"); }
        "1"
    } else if d == 2 {
        proof { reveal_strlit("2"); }
        "2"
    } else if d == 3 {
        proof { reveal_strlit("3"); }
        "3"
    } else if d == 4 {
        proof { reveal_strlit("4"); }
        "4"
    } else if d == 5 {
        proof { reveal_strlit("5"); }
        "5"
    } else if d == 6 {
        proof { reveal_strlit("6"); }
        "6"
    } else if d == 7 {
        proof { reveal_strlit("7"); }
        "7"
    } else if d == 8 {
        proof { reveal_strlit("8"); }
        "8"
    } else {
        proof { reveal_strlit("9"); }
        "9"
    }
}

/// Appends the decimal form of `n` to `s`.
pub fn push_decimal(s: &mut String, n: u8)
    ensures
        final(s)@ == old(s)@ + decimal(n as nat),
{
    let ghost s0 = s@;
    if n >= 100 {
        s.append(digit_str(n / 100));
        s.append(digit_str((n / 10) % 10));
        s.append(digit_str(n % 10));
        assert(decimal(n as nat) =~= seq![
            digit_char((n / 100) as nat),
            digit_char(((n / 10) % 10) as nat),
            digit_char((n % 10) as nat),
        ]) by {
            reveal_with_fuel(decimal, 3);
        }
        assert(s@ =~= s0 + decimal(n as nat));
    } else if n >= 10 {
        s.append(digit_str(n / 10));
        s.append(digit_str(n % 10));
        assert(decimal(n as nat) =~= seq![digit_char((n / 10) as nat), digit_char((n % 10) as nat)])
            by {
            reveal_with_fuel(decimal, 2);
        }
        assert(s@ =~= s0 + decimal(n as nat));
    } else {
        s.append(digit_str(n));
    }
}

/// Metadata of one page: the id of the set (exam) it belongs to, and its
/// page number, which is never zero.
#[derive(Clone, Copy, Debug)]
pub struct Meta {
    page: u8,
    sujet: u8,
}

impl View for Meta {
    /// (set id, page number)
    type V = (u8, u8);

    closed spec fn view(&self) -> (u8, u8) {
        (self.sujet, self.page)
    }
}

impl Meta {
    #[verifier::type_invariant]
    spec fn inv(&self) -> bool {
        self.page >= 1
    }

    /// The metadata of page `page` of set `exam_id`; a page of zero is refused.
    pub fn new(page: u8, exam_id: u8) -> (r: Result<Meta, Error>)
        ensures
            page == 0 <==> r == Err::<Meta, Error>(Error::InvalidPageCount),
            page != 0 ==> r is Ok && r->Ok_0@ == (exam_id, page),
    {
        if page == 0 {
            Err(Error::InvalidPageCount)
        } else {
            Ok(Meta { page, sujet: exam_id })
        }
    }

    /// The page number.
    pub fn page(&self) -> (r: u8)
        ensures
            r == self@.1,
            r >= 1,
    {
        proof { use_type_invariant(self); }
        self.page
    }

    /// The id of the set the page belongs to.
    pub fn exam_id(&self) -> (r: u8)
        ensures
            r == self@.0,
    {
        self.sujet
    }

    /// The two bytes that carry this metadata in a payload: set id, then page.
    pub fn to_bytes(&self) -> (r: Vec<u8>)
        ensures
            r@ == seq![self@.0, self@.1],
    {
        let mut v: Vec<u8> = Vec::new();
        v.push(self.sujet);
        v.push(self.page);
        assert(v@ =~= seq![self@.0, self@.1]);
        v
    }

    /// The textual form `"{set id}-{page}"`.
    pub fn to_string(&self) -> (r: String)
        ensures
            r@ == meta_text(self@),
    {
        let mut s = String::new();
        push_decimal(&mut s, self.sujet);
        proof { reveal_strlit("-"); }
        s.append("-");
        push_decimal(&mut s, self.page);
        assert(s@ =~= meta_text(self@));
        s
    }

    /// The sequence of all pages of this set, from page 1 up to this page.
    pub fn into_iter(self) -> (r: MetaIter)
        ensures
            r@ == pages_up_to(self@.0, self@.1),
    {
        let r = MetaIter { sujet: self.sujet, next: 1, stop: self.page };
        assert(r@ =~= pages_up_to(self@.0, self@.1));
        r
    }
}

/// The text `"{set id}-{page}"` of a metadata value.
pub open spec fn meta_text(m: (u8, u8)) -> Seq<char> {
    decimal(m.0 as nat) + seq!['-'] + decimal(m.1 as nat)
}

/// The metadata values `(set_id, 1), (set_id, 2), ..., (set_id, stop)`.
pub open spec fn pages_up_to(set_id: u8, stop: u8) -> Seq<(u8, u8)> {
    Seq::new(stop as nat, |i: int| (set_id, (i + 1) as u8))
}

/// A cursor over the pages of a set, handed out one at a time and in order.
/// Once a page has been handed out it is not handed out again.
pub struct MetaIter {
    sujet: u8,
    next: u16,
    stop: u8,
}

impl View for MetaIter {
    /// The metadata values still to come, in order.
    type V = Seq<(u8, u8)>;

    closed spec fn view(&self) -> Seq<(u8, u8)> {
        Seq::new(
            (self.stop + 1 - self.next) as nat,
            |i: int| (self.sujet, (self.next + i) as u8),
        )
    }
}

impl MetaIter {
    #[verifier::type_invariant]
    spec fn inv(&self) -> bool {
        1 <= self.next <= self.stop as u16 + 1
    }

    /// Drops every page still to come.
    pub fn finish(&mut self)
        ensures
            final(self)@.len() == 0,
    {
        proof { use_type_invariant(&*self); }
        self.next = self.stop as u16 + 1;
    }

    /// Hands out the next page, if any is left.
    pub fn next(&mut self) -> (r: Option<Meta>)
        ensures
            old(self)@.len() == 0 ==> r is None && final(self)@ == old(self)@,
            old(self)@.len() > 0 ==> r is Some && r->Some_0@ == old(self)@[0]
                && final(self)@ == old(self)@.drop_first(),
    {
        proof { use_type_invariant(&*self); }
        if self.next <= self.stop as u16 {
            let r = Meta { page: self.next as u8, sujet: self.sujet };
            self.next = self.next + 1;
            assert(self@ =~= old(self)@.drop_first());
            Some(r)
        } else {
            None
        }
    }
}

} // verus!
