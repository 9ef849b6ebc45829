//! The configuration collaborator: test settings and the access policy.
//!
//! The engine consults the configuration through the [`Config`] trait and
//! never reads files itself. Each exec method carries a contract tying it
//! to a spec-level description of the same configuration, so engine proofs
//! can speak about what the policy allows.

use vstd::prelude::*;

use crate::answer::Answer;
use crate::question::Question;

verus! {

/// Per-test parameters.
#[derive(Debug, PartialEq)]
pub struct TestSettings {
    pub caption: String,
    /// How many questions one variant draws from the pool.
    pub questions_number: usize,
    /// Time limit for one attempt, in minutes.
    pub test_duration_minutes: u64,
    /// Allowed attempts; zero means unlimited.
    pub number_of_attempts: u32,
    /// Whether finished attempts show numeric marks or only a completion
    /// marker.
    pub show_results: bool,
    pub allowed_users: Option<Vec<String>>,
    pub allowed_users_path: Option<String>,
}

impl Default for TestSettings {
    fn default() -> (r: TestSettings)
        ensures
            r.caption@ == Seq::<char>::empty(),
            r.questions_number == 0,
            r.test_duration_minutes == 0,
            r.number_of_attempts == 1,
            r.show_results == true,
    {
        TestSettings {
            caption: String::new(),
            questions_number: 0,
            test_duration_minutes: 0,
            number_of_attempts: 1,
            show_results: true,
            allowed_users: Some(Vec::new()),
            allowed_users_path: None,
        }
    }
}

/// Server-wide parameters.
#[derive(Debug, PartialEq)]
pub struct Settings {
    pub tests_directory_path: String,
    pub result_path: String,
    pub server_address: String,
    pub tests: Vec<TestSettings>,
    pub log_level: String,
}

impl Default for Settings {
    fn default() -> (r: Settings)
        ensures
            r.tests@.len() == 0,
    {
        Settings {
            tests_directory_path: String::from_str("tests"),
            result_path: String::from_str("results"),
            server_address: String::from_str("127.0.0.1:65001"),
            tests: Vec::new(),
            log_level: String::from_str("debug"),
        }
    }
}

/// What the examiner needs from its configuration: the user allow list,
/// the question bank, and per-test settings. Implementations live outside
/// the verified crate (a TOML file reader, a test double); their contracts
/// tie each call to the spec view of the same configuration.
pub trait Config: Sized {
    /// The user is known to the configuration. Left at its default, the
    /// spec view is unspecified; implementations inside the verifier
    /// override it.
    open spec fn spec_has_user(&self, username: Seq<char>) -> bool {
        arbitrary()
    }

    /// The test exists.
    open spec fn spec_has_test(&self, testname: Seq<char>) -> bool {
        arbitrary()
    }

    /// The test's settings, when the test exists.
    open spec fn spec_test_settings(&self, testname: Seq<char>) -> Option<TestSettings> {
        arbitrary()
    }

    /// The test's banner text.
    open spec fn spec_test_banner(&self, testname: Seq<char>) -> Option<String> {
        arbitrary()
    }

    /// The question at a pool index.
    open spec fn spec_question(&self, testname: Seq<char>, question_id: int) -> Option<Question> {
        arbitrary()
    }

    /// The size of the test's question pool.
    open spec fn spec_questions_count(&self, testname: Seq<char>) -> Option<usize> {
        arbitrary()
    }

    /// The correct answer at a pool index.
    open spec fn spec_answer(&self, testname: Seq<char>, question_id: int) -> Option<Answer> {
        arbitrary()
    }

    /// The user may take the test.
    open spec fn spec_has_access(&self, username: Seq<char>, testname: Seq<char>) -> bool {
        arbitrary()
    }

    /// The names of the tests the user may take.
    open spec fn spec_user_tests_list(&self, username: Seq<char>) -> Seq<Seq<char>> {
        arbitrary()
    }

    fn has_user(&self, username: &String) -> (r: bool)
        ensures
            r == self.spec_has_user(username@),
    ;

    fn has_test(&self, testname: &String) -> (r: bool)
        ensures
            r == self.spec_has_test(testname@),
    ;

    fn test_settings(&self, testname: &String) -> (r: Option<TestSettings>)
        ensures
            r == self.spec_test_settings(testname@),
    ;

    fn test_banner(&self, testname: &String) -> (r: Option<String>)
        ensures
            r == self.spec_test_banner(testname@),
    ;

    fn question(&self, testname: &String, question_id: usize) -> (r: Option<Question>)
        ensures
            r == self.spec_question(testname@, question_id as int),
    ;

    fn questions_count(&self, testname: &String) -> (r: Option<usize>)
        ensures
            r == self.spec_questions_count(testname@),
    ;

    fn answer(&self, testname: &String, question_id: usize) -> (r: Option<Answer>)
        ensures
            r == self.spec_answer(testname@, question_id as int),
    ;

    fn has_access(&self, username: &String, testname: &String) -> (r: bool)
        ensures
            r == self.spec_has_access(username@, testname@),
    ;

    fn user_tests_list(&self, username: &String) -> (r: Vec<String>)
        ensures
            r.deep_view() == self.spec_user_tests_list(username@),
    ;

    fn settings(&self) -> Settings;
}

} // verus!
