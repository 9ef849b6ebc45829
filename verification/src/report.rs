//! Result reporting: record shapes and the CSV export.
//!
//! The statistic collaborator hands over one record per finished attempt;
//! `export_results` renders them as CSV text. Writing that text to a file
//! is the caller's concern.

use vstd::prelude::*;

use crate::score::Score;

verus! {

/// One answer option of a reported question: its text, whether it was
/// correct, and whether the user selected it.
#[derive(Debug, PartialEq)]
pub struct AnswerRecord {
    pub answer: String,
    pub is_correct: bool,
    pub is_selected: bool,
}

/// One question of a reported variant.
#[derive(Debug, PartialEq)]
pub struct QuestionRecord {
    pub question: String,
    pub answers: Vec<AnswerRecord>,
}

/// One finished attempt as the statistic collaborator reports it.
#[derive(Debug, PartialEq)]
pub struct MarkRecord {
    pub username: String,
    pub testname: String,
    pub mark: Score,
    pub start_datetime: String,
    pub end_datetime: String,
}

/// One reported variant: its mark, timestamps, and per-question detail.
#[derive(Debug, PartialEq)]
pub struct VariantRecord {
    pub mark: Score,
    pub start_datetime: String,
    pub end_datetime: String,
    pub questions: Vec<QuestionRecord>,
}

/// Renders reports to files. Implementations live outside the verified
/// crate, next to the file I/O they need.
pub trait Reporter {
    /// Saves all marks to the named file.
    fn marks_report(&mut self, filename: String);

    /// Saves one user's variants on one test to a file.
    fn variants_report(&mut self, username: &String, testname: &String);
}

/// Supplies the recorded statistics. Implementations live outside the
/// verified crate (the mark store); the contracts tie each call to the
/// spec view of the recorded history.
pub trait Statistic: Sized {
    /// The users with at least one finished attempt. Left at its default,
    /// the spec view is unspecified; implementations inside the verifier
    /// override it.
    open spec fn spec_users(&self) -> Seq<Seq<char>> {
        arbitrary()
    }

    /// One user's finished attempts.
    open spec fn spec_results(&self, username: Seq<char>) -> Seq<MarkRecord> {
        arbitrary()
    }

    /// One user's reported variants on one test.
    open spec fn spec_variants(&self, username: Seq<char>, testname: Seq<char>) -> Seq<
        VariantRecord,
    > {
        arbitrary()
    }

    fn users(&mut self) -> (r: Vec<String>)
        ensures
            r.deep_view() == old(self).spec_users(),
            final(self).spec_users() == old(self).spec_users(),
            forall|u: Seq<char>| #[trigger]
                final(self).spec_results(u) == old(self).spec_results(u),
    ;

    fn results(&mut self, username: &String) -> (r: Vec<MarkRecord>)
        ensures
            r@ == old(self).spec_results(username@),
            final(self).spec_users() == old(self).spec_users(),
            forall|u: Seq<char>| #[trigger]
                final(self).spec_results(u) == old(self).spec_results(u),
    ;

    fn variants(&mut self, username: &String, testname: &String) -> (r: Vec<VariantRecord>)
        ensures
            r@ == old(self).spec_variants(username@, testname@),
            final(self).spec_users() == old(self).spec_users(),
            forall|u: Seq<char>| #[trigger]
                final(self).spec_results(u) == old(self).spec_results(u),
    ;
}

/// One CSV line for one finished attempt:
/// `test,user,started,finished,mark`, the mark as `num/den`.
pub open spec fn csv_line(rec: MarkRecord) -> Seq<char> {
    rec.testname@ + seq![','] + rec.username@ + seq![','] + rec.start_datetime@ + seq![',']
        + rec.end_datetime@ + seq![','] + decimal_digits(rec.mark.num as nat) + seq!['/']
        + decimal_digits(rec.mark.den as nat) + seq!['\n']
}

/// The CSV lines of a run of records, in order.
pub open spec fn csv_lines(recs: Seq<MarkRecord>) -> Seq<char>
    decreases recs.len(),
{
    if recs.len() == 0 {
        Seq::empty()
    } else {
        csv_lines(recs.drop_last()) + csv_line(recs.last())
    }
}

/// The whole CSV report: every listed user's records, users in order.
pub open spec fn csv_report<S: Statistic>(stat: S, users: Seq<Seq<char>>) -> Seq<char>
    decreases users.len(),
{
    if users.len() == 0 {
        Seq::empty()
    } else {
        csv_report(stat, users.drop_last()) + csv_lines(stat.spec_results(users.last()))
    }
}

/// Renders every user's finished attempts as CSV text, one line per
/// attempt, in the statistic's order. Writing the text to a file is the
/// caller's concern.
pub fn export_results<S: Statistic>(statistic: &mut S) -> (r: String)
    ensures
        r@ == csv_report(*old(statistic), old(statistic).spec_users()),
{
    proof {
        reveal_strlit(",");
        reveal_strlit("\n");
    }
    let ghost stat0 = *statistic;
    let users = statistic.users();
    let mut out = String::new();
    let mut i: usize = 0;
    while i < users.len()
        invariant
            i <= users@.len(),
            users.deep_view() == stat0.spec_users(),
            stat0.spec_users() == statistic.spec_users(),
            forall|u: Seq<char>| #[trigger]
                statistic.spec_results(u) == stat0.spec_results(u),
            out@ == csv_report(stat0, stat0.spec_users().take(i as int)),
        decreases users@.len() - i,
    {
        let ghost pre = *statistic;
        let recs = statistic.results(&users[i]);
        proof {
            assert forall|u: Seq<char>| #[trigger]
                statistic.spec_results(u) == stat0.spec_results(u) by {
                assert(statistic.spec_results(u) == pre.spec_results(u));
            }
            assert(users.deep_view()[i as int] == users@[i as int]@);
            assert(recs@ == stat0.spec_results(stat0.spec_users()[i as int]));
        }
        let mut j: usize = 0;
        while j < recs.len()
            invariant
                j <= recs@.len(),
                recs@ == stat0.spec_results(stat0.spec_users()[i as int]),
                i < users@.len(),
                users@.len() == stat0.spec_users().len(),
                out@ == csv_report(stat0, stat0.spec_users().take(i as int)) + csv_lines(
                    recs@.take(j as int),
                ),
            decreases recs@.len() - j,
        {
            proof {
                reveal_strlit(",");
                reveal_strlit("\n");
                assert(recs@.take(j + 1).drop_last() =~= recs@.take(j as int));
            }
            let rec = &recs[j];
            let line = rec.testname.clone().concat(",").concat(rec.username.as_str()).concat(
                ",",
            ).concat(rec.start_datetime.as_str()).concat(",").concat(
                rec.end_datetime.as_str(),
            ).concat(",").concat(score_string(&rec.mark).as_str()).concat("\n");
            proof {
                assert(line@ =~= csv_line(recs@[j as int]));
            }
            out.append(line.as_str());
            proof {
                assert(out@ =~= csv_report(stat0, stat0.spec_users().take(i as int)) + csv_lines(
                    recs@.take(j + 1),
                ));
            }
            j = j + 1;
        }
        proof {
            assert(recs@.take(recs@.len() as int) =~= recs@);
            assert(stat0.spec_users().take(i + 1).drop_last() =~= stat0.spec_users().take(
                i as int,
            ));
            assert(stat0.spec_users().take(i + 1).last() == stat0.spec_users()[i as int]);
        }
        i = i + 1;
    }
    proof {
        assert(stat0.spec_users().take(stat0.spec_users().len() as int) =~= stat0.spec_users());
    }
    out
}

/// The decimal digits of `n`, most significant first.
pub open spec fn decimal_digits(n: nat) -> Seq<char>
    decreases n,
{
    let digit = seq![decimal_digit((n % 10) as int)];
    if n < 10 {
        digit
    } else {
        decimal_digits(n / 10) + digit
    }
}

/// The character for one decimal digit.
pub open spec fn decimal_digit(d: int) -> char {
    if d == 0 {
        '0'
    } else if d == 1 {
        '1'
    } else if d == 2 {
        '2'
    } else if d == 3 {
        '3'
    } else if d == 4 {
        '4'
    } else if d == 5 {
        '5'
    } else if d == 6 {
        '6'
    } else if d == 7 {
        '7'
    } else if d == 8 {
        '8'
    } else {
        '9'
    }
}

/// One decimal digit as a string slice.
fn digit_str(d: u64) -> (r: &'static str)
    requires
        d < 10,
    ensures
        r@ == seq![decimal_digit(d as int)],
{
    proof {
        reveal_strlit("0");
        reveal_strlit("1");
        reveal_strlit("2");
        reveal_strlit("3");
        reveal_strlit("4");
        reveal_strlit("5");
        reveal_strlit("6");
        reveal_strlit("7");
        reveal_strlit("8");
        reveal_strlit("9");
    }
    if d == 0 {
        "0"
    } else if d == 1 {
        "1"
    } else if d == 2 {
        "2"
    } else if d == 3 {
        "3"
    } else if d == 4 {
        "4"
    } else if d == 5 {
        "5"
    } else if d == 6 {
        "6"
    } else if d == 7 {
        "7"
    } else if d == 8 {
        "8"
    } else {
        "9"
    }
}

/// Renders `n` in decimal.
pub fn decimal_string(n: u64) -> (r: String)
    ensures
        r@ == decimal_digits(n as nat),
    decreases n,
{
    if n < 10 {
        digit_str(n).to_owned()
    } else {
        let high = decimal_string(n / 10);
        high.concat(digit_str(n % 10))
    }
}

/// Renders a score as `num/den`.
pub fn score_string(s: &Score) -> (r: String)
    ensures
        r@ == decimal_digits(s.num as nat) + seq!['/'] + decimal_digits(s.den as nat),
{
    proof {
        reveal_strlit("/");
    }
    let num = decimal_string(s.num);
    let den = decimal_string(s.den);
    num.concat("/").concat(den.as_str())
}

} // verus!
