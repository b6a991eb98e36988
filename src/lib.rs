//! Parser and dispatcher for AT command lines.
//!
//! A line such as `AT+ECHO=1` names a command and selects one of four
//! forms: execute (`AT+X`), query (`AT+X?`), test (`AT+X=?`) or set with
//! arguments (`AT+X=<args>`). [`parser::AtParser`] looks the name up in a
//! caller-supplied table and calls the matching operation of the
//! registered [`context::AtContext`] handler.
use vstd::prelude::*;


pub mod context;
pub mod parser;
pub mod text;

use crate::text::{find_char, first_index_of, lemma_first_index_of};

verus! {

/// Why a command line could not be served.
#[derive(Debug, Clone, Copy, PartialEq, Eq, Structural)]
pub enum AtError {
    /// No table entry carries the parsed name.
    UnknownCommand,
    /// The command exists but does not implement the requested form.
    NotSupported,
    /// The arguments are missing, malformed or out of range.
    InvalidArgs,
}

/// A reply text, or the reason there is none.
pub type AtResult<'a> = Result<&'a str, AtError>;

/// The fields of `s` separated by `d`, in order; empty fields are kept,
/// and text without `d` (the empty text too) is a single field.
pub open spec fn split_on(s: Seq<char>, d: char) -> Seq<Seq<char>>
    decreases s.len(),
{
    let p = first_index_of(s, d);
    if p < s.len() {
        seq![s.take(p as int)] + split_on(s.skip(p + 1 as int), d)
    } else {
        seq![s]
    }
}

/// The `i`-th comma-separated field of `s`, if there is one.
pub open spec fn field(s: Seq<char>, i: int) -> Option<Seq<char>> {
    let fields = split_on(s, ',');
    if 0 <= i < fields.len() {
        Some(fields[i])
    } else {
        None
    }
}

/// `fields` joined into one text with `d` between neighbours.
pub open spec fn join_with(fields: Seq<Seq<char>>, d: char) -> Seq<char>
    decreases fields.len(),
{
    if fields.len() <= 1 {
        if fields.len() == 0 {
            Seq::empty()
        } else {
            fields[0]
        }
    } else {
        fields[0] + seq![d] + join_with(fields.drop_first(), d)
    }
}

/// Splitting is exact: no field holds the separator, and joining the
/// fields with the separator gives the text back character for character,
/// so no whitespace is trimmed and no empty field is lost.
pub proof fn lemma_split_on_rejoins(s: Seq<char>, d: char)
    ensures
        split_on(s, d).len() >= 1,
        forall|i: int| 0 <= i < split_on(s, d).len() ==> !(#[trigger] split_on(s, d)[i]).contains(d),
        join_with(split_on(s, d), d) == s,
    decreases s.len(),
{
    lemma_first_index_of(s, d);
    let p = first_index_of(s, d) as int;
    let fields = split_on(s, d);
    if p < s.len() {
        let rest = s.skip(p + 1);
        lemma_split_on_rejoins(rest, d);
        assert(fields.drop_first() =~= split_on(rest, d));
        assert forall|i: int| 0 <= i < fields.len() implies !(#[trigger] fields[i]).contains(d) by {
            if i == 0 {
                if fields[0].contains(d) {
                    let j = choose|j: int| 0 <= j < fields[0].len() && fields[0][j] == d;
                    assert(s[j] == d);
                }
            } else {
                assert(fields[i] == split_on(rest, d)[i - 1]);
            }
        }
        assert(s.take(p) + seq![d] + rest =~= s);
    } else {
        assert forall|i: int| 0 <= i < fields.len() implies !(#[trigger] fields[i]).contains(d) by {
            if s.contains(d) {
                let j = choose|j: int| 0 <= j < s.len() && s[j] == d;
            }
        }
    }
}

/// An empty argument text has exactly one field, the empty one.
pub proof fn lemma_empty_raw_has_one_empty_field()
    ensures
        field(Seq::empty(), 0) == Some(Seq::<char>::empty()),
        forall|i: int| i != 0 ==> field(Seq::empty(), i) is None,
{
    let e = Seq::<char>::empty();
    assert(first_index_of(e, ',') == 0);
    assert(split_on(e, ',') =~= seq![e]);
}

/// Borrowed view of the text after `=` in a set command.
pub struct Args<'a> {
    pub raw: &'a str,
}

impl<'a> View for Args<'a> {
    type V = Seq<char>;

    open spec fn view(&self) -> Seq<char> {
        self.raw@
    }
}

impl<'a> Args<'a> {
    /// The `index`-th comma-separated field of the raw text, untrimmed.
    pub fn get(&self, index: usize) -> (r: Option<&'a str>)
        ensures
            r.is_some() == field(self.raw@, index as int).is_some(),
            r.is_some() ==> r.unwrap()@ == field(self.raw@, index as int).unwrap(),
    {
        let mut rest: &'a str = self.raw;
        let mut count: usize = 0;
        loop
            invariant
                count <= index,
                field(self.raw@, index as int) == field(rest@, index - count),
            decreases rest@.len(),
        {
            let n = rest.unicode_len();
            let p = find_char(rest, ',');
            proof {
                lemma_first_index_of(rest@, ',');
            }
            if p == n {
                if count == index {
                    assert(rest@.take(n as int) =~= rest@);
                    return Some(rest);
                }
                return None;
            }
            if count == index {
                return Some(rest.substring_char(0, p));
            }
            let next = rest.substring_char(p + 1, n);
            assert(split_on(rest@, ',') =~= seq![rest@.take(p as int)] + split_on(next@, ','));
            rest = next;
            count = count + 1;
        }
    }
}

} // verus!
