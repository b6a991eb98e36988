//! Classification of a command line into a name and a form, and dispatch
//! of the form to the handler registered under that name.
use vstd::prelude::*;

use crate::context::AtContext;
use crate::text::{
    all_blank, find_char, first_index_of, lemma_first_index_of, lemma_trim_surrounded, same_text,
    trim, trim_str,
};
use crate::{Args, AtError, AtResult};

verus! {

/// The form a command line selects, with its arguments for a set.
pub enum AtForm<'a> {
    Exec,
    Query,
    Test,
    SetArgs(Args<'a>),
}

/// What an [`AtForm`] stands for: the form, and the raw argument text of a set.
pub enum FormView {
    Exec,
    Query,
    Test,
    SetArgs(Seq<char>),
}

impl<'a> View for AtForm<'a> {
    type V = FormView;

    open spec fn view(&self) -> FormView {
        match self {
            AtForm::Exec => FormView::Exec,
            AtForm::Query => FormView::Query,
            AtForm::Test => FormView::Test,
            AtForm::SetArgs(args) => FormView::SetArgs(args.raw@),
        }
    }
}

/// `t` ends with `=?`.
pub open spec fn ends_with_test(t: Seq<char>) -> bool {
    t.len() >= 2 && t[t.len() - 2] == '=' && t[t.len() - 1] == '?'
}

/// `t` ends with `?`.
pub open spec fn ends_with_query(t: Seq<char>) -> bool {
    t.len() >= 1 && t.last() == '?'
}

/// `t` holds an `=`.
pub open spec fn has_equals(t: Seq<char>) -> bool {
    first_index_of(t, '=') < t.len()
}

/// The name and form of an already trimmed line, by the first rule that
/// applies: a trailing `=?` is a test, a trailing `?` a query, an `=` a set
/// whose arguments follow the first `=`, and anything else an execution.
pub open spec fn classify(t: Seq<char>) -> (Seq<char>, FormView) {
    if ends_with_test(t) {
        (t.take(t.len() - 2), FormView::Test)
    } else if ends_with_query(t) {
        (t.drop_last(), FormView::Query)
    } else if has_equals(t) {
        let p = first_index_of(t, '=') as int;
        (t.take(p), FormView::SetArgs(t.skip(p + 1)))
    } else {
        (t, FormView::Exec)
    }
}

/// The name and form of a command line, surrounding whitespace ignored.
pub open spec fn parse_line(line: Seq<char>) -> (Seq<char>, FormView) {
    classify(trim(line))
}

/// Splits a command line into its name and form.
///
/// Surrounding whitespace is dropped first; every line has a name and a
/// form, so the result is always `Ok`.
pub fn parse<'a>(input: &'a str) -> (r: Result<(&'a str, AtForm<'a>), AtError>)
    ensures
        r is Ok,
        r->Ok_0.0@ == parse_line(input@).0,
        r->Ok_0.1@ == parse_line(input@).1,
{
    let t = trim_str(input);
    let n = t.unicode_len();
    if n >= 2 && t.get_char(n - 2) == '=' && t.get_char(n - 1) == '?' {
        Ok((t.substring_char(0, n - 2), AtForm::Test))
    } else if n >= 1 && t.get_char(n - 1) == '?' {
        Ok((t.substring_char(0, n - 1), AtForm::Query))
    } else {
        let p = find_char(t, '=');
        if p < n {
            Ok((t.substring_char(0, p), AtForm::SetArgs(Args { raw: t.substring_char(p + 1, n) })))
        } else {
            Ok((t, AtForm::Exec))
        }
    }
}

/// A line whose trimmed text ends with `=?` is a test of the name before
/// that suffix.
pub proof fn lemma_test_form(line: Seq<char>)
    requires
        ends_with_test(trim(line)),
    ensures
        parse_line(line).1 == FormView::Test,
        parse_line(line).0 == trim(line).take(trim(line).len() - 2),
        parse_line(line).0 + seq!['=', '?'] == trim(line),
{
    let t = trim(line);
    assert(t.take(t.len() - 2) + seq!['=', '?'] =~= t);
}

/// A line whose trimmed text ends with `?` but not with `=?` is a query of
/// the name before the `?`.
pub proof fn lemma_query_form(line: Seq<char>)
    requires
        ends_with_query(trim(line)),
        !ends_with_test(trim(line)),
    ensures
        parse_line(line).1 == FormView::Query,
        parse_line(line).0 + seq!['?'] == trim(line),
{
    let t = trim(line);
    assert(t.drop_last() + seq!['?'] =~= t);
}

/// A line whose trimmed text holds `=` and does not end with `?` is a set:
/// the name is the text before the first `=`, which therefore holds no
/// `=`, and the arguments are all the text after it.
pub proof fn lemma_set_form(line: Seq<char>)
    requires
        trim(line).contains('='),
        !ends_with_query(trim(line)),
    ensures
        parse_line(line).1 == FormView::SetArgs(trim(line).skip(parse_line(line).0.len() + 1int)),
        !parse_line(line).0.contains('='),
        parse_line(line).0 + seq!['='] + trim(line).skip(parse_line(line).0.len() + 1int) == trim(
            line,
        ),
{
    let t = trim(line);
    lemma_first_index_of(t, '=');
    let p = first_index_of(t, '=') as int;
    assert(!ends_with_test(t));
    assert(has_equals(t));
    let name = t.take(p);
    assert(name.len() == p);
    assert(!name.contains('=')) by {
        if name.contains('=') {
            let j = choose|j: int| 0 <= j < name.len() && name[j] == '=';
            assert(t[j] == '=');
        }
    }
    assert(name + seq!['='] + t.skip(p + 1) =~= t);
}

/// A line whose trimmed text holds no `=` and does not end with `?` is an
/// execution of exactly that text.
pub proof fn lemma_exec_form(line: Seq<char>)
    requires
        !trim(line).contains('='),
        !ends_with_query(trim(line)),
    ensures
        parse_line(line) == (trim(line), FormView::Exec),
{
    let t = trim(line);
    lemma_first_index_of(t, '=');
    if has_equals(t) {
        assert(t.contains('='));
    }
    assert(!ends_with_test(t));
}

/// Whitespace before and after a line changes neither its name nor its
/// form, and so neither the entry it selects.
pub proof fn lemma_parse_ignores_surrounding_blanks(w1: Seq<char>, line: Seq<char>, w2: Seq<char>)
    requires
        all_blank(w1),
        all_blank(w2),
    ensures
        parse_line(w1 + line + w2) == parse_line(line),
{
    lemma_trim_surrounded(w1, line, w2);
}

/// Dispatcher over a caller-owned table of (name, handler) entries.
pub struct AtParser<'a, T> where T: AtContext {
    pub commands: &'a mut [(&'static str, &'a mut T)],
}

impl<'a, T> AtParser<'a, T> where T: AtContext {
    /// The names of the table, in order.
    pub open spec fn names(&self) -> Seq<Seq<char>> {
        Seq::new(self.commands@.len(), |i: int| self.commands@[i].0@)
    }

    /// The state of the handler of entry `i`.
    pub open spec fn handler(&self, i: int) -> T {
        *self.commands@[i].1
    }

    /// A dispatcher with an empty table.
    pub fn new() -> (r: Self)
        ensures
            r.commands@.len() == 0,
    {
        Self { commands: &mut [] }
    }

    /// Makes `commands` the table that later lines are looked up in.
    pub fn set_commands(&mut self, commands: &'a mut [(&'static str, &'a mut T)])
        ensures
            final(self).commands@ == old(commands)@,
            final(final(self).commands)@ == final(commands)@,
    {
        self.commands = commands;
    }

    /// Parses `input`, finds the first entry whose name equals the parsed
    /// name, and runs the operation of its handler that the form selects.
    ///
    /// With no such entry the result is `Err(AtError::UnknownCommand)` and
    /// no handler is touched. Otherwise exactly that handler's operation
    /// runs, its result is returned unchanged, and no other handler
    /// changes. The table's names never change.
    pub fn execute(&mut self, input: &str) -> (r: AtResult<'static>)
        ensures
            final(self).commands@.len() == old(self).commands@.len(),
            final(self).names() == old(self).names(),
            !old(self).names().contains(parse_line(input@).0) ==> r == Err::<
                &'static str,
                AtError,
            >(AtError::UnknownCommand),
            ({
                let (name, form) = parse_line(input@);
                let i = first_index_of(old(self).names(), name) as int;
                &&& i == old(self).commands@.len() ==> r == Err::<&'static str, AtError>(
                    AtError::UnknownCommand,
                )
                &&& forall|j: int|
                    0 <= j < old(self).commands@.len() && j != i ==> final(self).handler(j)
                        == old(self).handler(j)
                &&& i < old(self).commands@.len() ==> {
                    let before = old(self).handler(i);
                    let after = final(self).handler(i);
                    match form {
                        FormView::Exec => after == before && call_ensures(T::exec, (&before,), r),
                        FormView::Query => exists|m: &mut T|
                            *m == before && *final(m) == after && call_ensures(T::query, (m,), r),
                        FormView::Test => exists|m: &mut T|
                            *m == before && *final(m) == after && call_ensures(T::test, (m,), r),
                        FormView::SetArgs(raw) => exists|m: &mut T, a: Args|
                            *m == before && *final(m) == after && a.raw@ == raw
                                && call_ensures(T::set, (m, a), r),
                    }
                }
            }),
    {
        let (name, form) = match parse(input) {
            Ok(parsed) => parsed,
            Err(e) => return Err(e),
        };
        let n = self.commands.len();
        let mut i: usize = 0;
        while i < n
            invariant
                n == self.commands@.len(),
                i <= n,
                forall|j: int| 0 <= j < i ==> self.commands@[j].0@ != name@,
            ensures
                i <= n,
                i < n ==> self.commands@[i as int].0@ == name@,
                forall|j: int| 0 <= j < i ==> self.commands@[j].0@ != name@,
            decreases n - i,
        {
            if same_text(self.commands[i].0, name) {
                break;
            }
            i = i + 1;
        }
        proof {
            lemma_first_index_of(self.names(), name@);
            assert(forall|j: int| 0 <= j < i ==> self.names()[j] != name@);
            assert(i < n ==> self.names()[i as int] == name@);
            assert(first_index_of(self.names(), name@) == i);
            assert(i < n ==> self.names().contains(name@));
        }
        if i == n {
            return Err(AtError::UnknownCommand);
        }
        let entry = &mut self.commands[i];
        match form {
            AtForm::Exec => entry.1.exec(),
            AtForm::Query => entry.1.query(),
            AtForm::Test => entry.1.test(),
            AtForm::SetArgs(args) => entry.1.set(args),
        }
    }
}

} // verus!
