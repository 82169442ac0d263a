use vstd::prelude::*;
use vstd::string::StringExecFns;
use crate::text::{decimal, decimal_string};

verus! {

/// A list of failures, each a status code with its message.
#[derive(Debug)]
pub struct GeneralError {
    errors: Vec<(u8, String)>,
}

impl GeneralError {
    /// The failures as pairs of code and message text.
    pub closed spec fn view(&self) -> Seq<(u8, Seq<char>)> {
        Seq::new(self.errors@.len(), |i: int| (self.errors@[i].0, self.errors@[i].1@))
    }

    pub fn new(errors: Vec<(u8, String)>) -> (e: Self)
        ensures
            e@ == Seq::new(errors@.len(), |i: int| (errors@[i].0, errors@[i].1@)),
    {
        GeneralError { errors }
    }

    /// One failure with code 1.
    pub fn from_msg(message: String) -> (e: Self)
        ensures
            e@ == seq![(1u8, message@)],
    {
        let e = GeneralError { errors: vec![(1u8, message)] };
        assert(e@ =~= seq![(1u8, message@)]);
        e
    }
}

/// The text that `{:?}` writes for a string: the string between double quotes, with the
/// characters that need it escaped.
pub uninterp spec fn debug_quoted(text: Seq<char>) -> Seq<char>;

/// Formats a string with `{:?}`, the `Debug` form of the standard library; the result
/// depends on the string alone.
#[verifier::external_body]
fn quote(text: &str) -> (r: String)
    ensures
        r@ == debug_quoted(text@),
{
    format!("{:?}", text)
}

/// One failure as a line: its message and its code.
pub open spec fn failure_line(failure: (u8, Seq<char>)) -> Seq<char> {
    failure.1 + " (code "@ + decimal(failure.0 as nat) + ")"@
}

/// The lines of the failures, with a line break between one and the next.
pub open spec fn failure_text(failures: Seq<(u8, Seq<char>)>) -> Seq<char>
    decreases failures.len(),
{
    if failures.len() == 0 {
        Seq::empty()
    } else if failures.len() == 1 {
        failure_line(failures[0])
    } else {
        failure_text(failures.drop_last()) + seq!['\n'] + failure_line(failures.last())
    }
}

impl GeneralError {
    /// The failures as one text: a line for each, quoted as `{:?}` quotes a string.
    pub fn to_string(&self) -> (r: String)
        ensures
            r@ == debug_quoted(failure_text(self@)),
    {
        let mut text = String::new();
        let mut i: usize = 0;
        let ghost all = self@;
        assert(all.take(0) =~= Seq::empty());
        while i < self.errors.len()
            invariant
                i <= self.errors.len(),
                all == self@,
                all.len() == self.errors.len(),
                text@ == failure_text(all.take(i as int)),
            decreases self.errors.len() - i,
        {
            proof {
                assert(all.take(i + 1).drop_last() =~= all.take(i as int));
                assert(all.take(i + 1).last() == (self.errors@[i as int].0, self.errors@[i as int].1@));
                if i == 0 {
                    assert(all.take(1)[0] == all.take(1).last());
                }
            }
            if i > 0 {
                text.push('\n');
            }
            text.append(self.errors[i].1.as_str());
            text.append(" (code ");
            text.append(decimal_string(self.errors[i].0 as usize).as_str());
            text.append(")");
            assert(text@ =~= failure_text(all.take(i + 1)));
            i += 1;
        }
        assert(all.take(i as int) =~= all);
        quote(text.as_str())
    }
}

/// What the driver makes of the statuses with which the workers ended: success if every
/// code is 0, else a failure that holds the statuses with another code, in order.
pub fn aggregate(statuses: Vec<(u8, String)>) -> (r: Result<(), GeneralError>)
    ensures
        match r {
            Ok(_) => failed(status_texts(statuses@)).len() == 0,
            Err(e) => failed(status_texts(statuses@)).len() > 0 && e@ == failed(
                status_texts(statuses@),
            ),
        },
{
    let mut errors: Vec<(u8, String)> = Vec::new();
    let ghost all = status_texts(statuses@);
    let mut i: usize = 0;
    assert(all.take(0) =~= Seq::empty());
    assert(status_texts(errors@) =~= Seq::empty());
    while i < statuses.len()
        invariant
            i <= statuses.len(),
            all == status_texts(statuses@),
            status_texts(errors@) == failed(all.take(i as int)),
        decreases statuses.len() - i,
    {
        proof {
            assert(all.take(i + 1).drop_last() =~= all.take(i as int));
            assert(all.take(i + 1).last() == (statuses@[i as int].0, statuses@[i as int].1@));
        }
        if statuses[i].0 > 0 {
            let ghost before = status_texts(errors@);
            errors.push((statuses[i].0, statuses[i].1.clone()));
            assert(status_texts(errors@) =~= before.push((statuses@[i as int].0, statuses@[i as int].1@)));
        }
        i += 1;
    }
    assert(all.take(i as int) =~= all);
    if errors.len() == 0 {
        Ok(())
    } else {
        let ghost kept = status_texts(errors@);
        let e = GeneralError::new(errors);
        assert(e@ =~= kept);
        Err(e)
    }
}

/// The statuses as pairs of code and message text.
pub open spec fn status_texts(statuses: Seq<(u8, String)>) -> Seq<(u8, Seq<char>)> {
    Seq::new(statuses.len(), |i: int| (statuses[i].0, statuses[i].1@))
}

/// The statuses whose code is not 0, in order.
pub open spec fn failed(statuses: Seq<(u8, Seq<char>)>) -> Seq<(u8, Seq<char>)>
    decreases statuses.len(),
{
    if statuses.len() == 0 {
        Seq::empty()
    } else if statuses.last().0 > 0 {
        failed(statuses.drop_last()).push(statuses.last())
    } else {
        failed(statuses.drop_last())
    }
}

} // verus!
