//! Exam engine behavior, driven through test doubles of the
//! configuration and the mark store.

use std::cell::RefCell;
use std::rc::Rc;

use learned_cat::{
    Answer, Command, Config, Database, Examiner, Marks, Question, Request, Response, Score,
    Settings, TestSettings, Tick, WorkItem,
};

fn math_settings() -> TestSettings {
    TestSettings {
        caption: "math".to_string(),
        questions_number: 1,
        test_duration_minutes: 1,
        number_of_attempts: 3,
        show_results: true,
        allowed_users: Some(vec!["student".to_string()]),
        allowed_users_path: None,
    }
}

struct TConfig {}

impl Config for TConfig {
    fn has_user(&self, username: &String) -> bool {
        *username == "student".to_string()
    }

    fn has_test(&self, testname: &String) -> bool {
        *testname == "math".to_string()
    }

    fn test_settings(&self, testname: &String) -> Option<TestSettings> {
        if *testname == "math".to_string() {
            Some(math_settings())
        } else {
            None
        }
    }

    fn test_banner(&self, testname: &String) -> Option<String> {
        if *testname == "math".to_string() {
            Some("description".to_string())
        } else {
            None
        }
    }

    fn question(&self, testname: &String, question_id: usize) -> Option<Question> {
        if *testname == "math".to_string() && question_id == 0 {
            Some(Question {
                question: "2+2".to_string(),
                answers: vec!["4".to_string(), "5".to_string()],
                correct_answer: Answer::new(vec![0]),
            })
        } else {
            None
        }
    }

    fn questions_count(&self, testname: &String) -> Option<usize> {
        if *testname == "math".to_string() {
            Some(1)
        } else {
            None
        }
    }

    fn answer(&self, testname: &String, question_id: usize) -> Option<Answer> {
        if *testname == "math".to_string() && question_id == 0 {
            Some(Answer::new(vec![0]))
        } else {
            None
        }
    }

    fn has_access(&self, username: &String, testname: &String) -> bool {
        *username == "student".to_string() && *testname == "math".to_string()
    }

    fn user_tests_list(&self, _username: &String) -> Vec<String> {
        vec!["math".to_string()]
    }

    fn settings(&self) -> Settings {
        Settings {
            tests_directory_path: "example-config".to_string(),
            result_path: "marks.db".to_string(),
            server_address: "127.0.0.1:8080".to_string(),
            tests: vec![math_settings()],
            log_level: "debug".to_string(),
        }
    }
}

struct TDatabase {}

impl Database for TDatabase {
    fn attempts_counter(&mut self, _username: &String, _testname: &String) -> u32 {
        1
    }

    fn marks(&mut self, _username: &String, _testname: &String) -> Vec<Score> {
        vec![Score::new(3, 1)]
    }

    fn append_mark(
        &mut self,
        _username: &String,
        _testname: &String,
        _mark: &Score,
        _start_timestamp: &String,
        _end_timestamp: &String,
    ) -> bool {
        true
    }
}

fn get_examiner() -> Examiner<TConfig, TDatabase> {
    Examiner::new(TConfig {}, TDatabase {})
}

#[test]
fn examiner_description() {
    let mut examiner = get_examiner();
    let resp = examiner.banner_to_start_test(&"student".to_string(), &"math".to_string());
    assert_eq!(
        resp,
        Response::TestStarted {
            banner: "description".to_string()
        }
    );

    let resp = examiner.banner_to_start_test(&"student2".to_string(), &"math".to_string());
    assert_eq!(resp, Response::NotAllowedUser);

    let resp = examiner.banner_to_start_test(&"student".to_string(), &"math2".to_string());
    assert_eq!(resp, Response::NotAllowedUser);

    let resp = examiner.banner_to_start_test(&"student2".to_string(), &"math2".to_string());
    assert_eq!(resp, Response::NotAllowedUser);
}

#[test]
fn examiner_avaliable_tests() {
    let mut examiner = get_examiner();
    let resp = examiner.avaliable_tests(&"username".to_string());
    assert_eq!(resp, Response::NotAllowedUser);

    let resp = examiner.avaliable_tests(&"student".to_string());
    assert_eq!(
        resp,
        Response::AvaliableTests {
            tests: vec![(
                "math".to_string(),
                Marks::Marks {
                    marks: vec![Score::new(3, 1)]
                }
            )]
        }
    );
}

#[test]
fn examiner_put_answer() {
    let mut examiner = get_examiner();
    // Submitting without an open variant is a server-side error.
    let resp = examiner.put_answer(
        &"student".to_string(),
        &"math".to_string(),
        &Answer::new(vec![1]),
        0,
    );
    assert_eq!(resp, Response::ServerError);

    let resp = examiner.put_answer(
        &"student2".to_string(),
        &"math".to_string(),
        &Answer::new(vec![1]),
        0,
    );
    assert_eq!(resp, Response::NotAllowedUser);

    let resp = examiner.put_answer(
        &"student".to_string(),
        &"math2".to_string(),
        &Answer::new(vec![1]),
        0,
    );
    assert_eq!(resp, Response::NotAllowedUser);
}

#[test]
fn examiner_next_question() {
    let mut examiner = get_examiner();
    let resp = examiner.next_question(&"username".to_string(), &"math".to_string(), 0);
    assert_eq!(resp, Response::NotAllowedUser);

    let resp = examiner.next_question(&"student".to_string(), &"testname".to_string(), 0);
    assert_eq!(resp, Response::NotAllowedUser);

    // The first call opens the variant and shows the banner; the second
    // serves the question.
    let resp = examiner.next_question(&"student".to_string(), &"math".to_string(), 0);
    assert_eq!(
        resp,
        Response::TestStarted {
            banner: "description".to_string()
        }
    );
    let resp = examiner.next_question(&"student".to_string(), &"math".to_string(), 0);
    let true_resp = Response::NextQuestion {
        question: "2+2".to_string(),
        answers: vec!["4".to_string(), "5".to_string()],
    };
    assert_eq!(resp, true_resp);
}

/// A configuration that grants access but has lost the test's settings:
/// the engine must answer with a server error, not panic.
struct BrokenConfig {}

impl Config for BrokenConfig {
    fn has_user(&self, _username: &String) -> bool {
        true
    }

    fn has_test(&self, _testname: &String) -> bool {
        false
    }

    fn test_settings(&self, _testname: &String) -> Option<TestSettings> {
        None
    }

    fn test_banner(&self, _testname: &String) -> Option<String> {
        None
    }

    fn question(&self, _testname: &String, _question_id: usize) -> Option<Question> {
        None
    }

    fn questions_count(&self, _testname: &String) -> Option<usize> {
        None
    }

    fn answer(&self, _testname: &String, _question_id: usize) -> Option<Answer> {
        None
    }

    fn has_access(&self, _username: &String, _testname: &String) -> bool {
        true
    }

    fn user_tests_list(&self, _username: &String) -> Vec<String> {
        vec![]
    }

    fn settings(&self) -> Settings {
        Settings {
            tests_directory_path: String::new(),
            result_path: String::new(),
            server_address: String::new(),
            tests: vec![],
            log_level: String::new(),
        }
    }
}

#[test]
fn missing_settings_is_server_error() {
    let mut examiner = Examiner::new(BrokenConfig {}, TDatabase {});
    let resp = examiner.next_question(&"anyone".to_string(), &"ghost-test".to_string(), 0);
    assert_eq!(resp, Response::ServerError);
    let resp = examiner.put_answer(
        &"anyone".to_string(),
        &"ghost-test".to_string(),
        &Answer::new(vec![0]),
        0,
    );
    assert_eq!(resp, Response::ServerError);
}

/// The richer fixture of the end-to-end scenario: test "linux" with six
/// questions, two sampled per variant, five minutes, three attempts.
struct LinuxConfig {}

fn linux_settings() -> TestSettings {
    TestSettings {
        caption: "linux".to_string(),
        questions_number: 2,
        test_duration_minutes: 5,
        number_of_attempts: 3,
        show_results: true,
        allowed_users: Some(vec!["student1".to_string()]),
        allowed_users_path: None,
    }
}

fn linux_question(question_id: usize) -> Question {
    Question {
        question: format!("question {question_id}"),
        answers: vec!["a".to_string(), "b".to_string(), "c".to_string()],
        correct_answer: Answer::new(vec![question_id % 3]),
    }
}

impl Config for LinuxConfig {
    fn has_user(&self, username: &String) -> bool {
        *username == "student1".to_string()
    }

    fn has_test(&self, testname: &String) -> bool {
        *testname == "linux".to_string()
    }

    fn test_settings(&self, testname: &String) -> Option<TestSettings> {
        if *testname == "linux".to_string() {
            Some(linux_settings())
        } else {
            None
        }
    }

    fn test_banner(&self, testname: &String) -> Option<String> {
        if *testname == "linux".to_string() {
            Some("welcome to linux".to_string())
        } else {
            None
        }
    }

    fn question(&self, testname: &String, question_id: usize) -> Option<Question> {
        if *testname == "linux".to_string() && question_id < 6 {
            Some(linux_question(question_id))
        } else {
            None
        }
    }

    fn questions_count(&self, testname: &String) -> Option<usize> {
        if *testname == "linux".to_string() {
            Some(6)
        } else {
            None
        }
    }

    fn answer(&self, testname: &String, question_id: usize) -> Option<Answer> {
        self.question(testname, question_id).map(|q| q.correct_answer)
    }

    fn has_access(&self, username: &String, testname: &String) -> bool {
        *username == "student1".to_string() && *testname == "linux".to_string()
    }

    fn user_tests_list(&self, _username: &String) -> Vec<String> {
        vec!["linux".to_string()]
    }

    fn settings(&self) -> Settings {
        Settings {
            tests_directory_path: "tests".to_string(),
            result_path: "results".to_string(),
            server_address: "127.0.0.1:65001".to_string(),
            tests: vec![linux_settings()],
            log_level: "info".to_string(),
        }
    }
}

/// A mark store that records appended marks in memory; it can also be
/// told to refuse writes, to exercise the retry path.
#[derive(Clone)]
struct MemDatabase {
    marks: Rc<RefCell<Vec<(String, String, Score)>>>,
    accept: Rc<RefCell<bool>>,
}

impl MemDatabase {
    fn new() -> MemDatabase {
        MemDatabase {
            marks: Rc::new(RefCell::new(vec![])),
            accept: Rc::new(RefCell::new(true)),
        }
    }
}

impl Database for MemDatabase {
    fn attempts_counter(&mut self, username: &String, testname: &String) -> u32 {
        let marks = self.marks.borrow();
        marks
            .iter()
            .filter(|(u, t, _)| u == username && t == testname)
            .count() as u32
    }

    fn marks(&mut self, username: &String, testname: &String) -> Vec<Score> {
        let marks = self.marks.borrow();
        marks
            .iter()
            .filter(|(u, t, _)| u == username && t == testname)
            .map(|(_, _, m)| *m)
            .collect()
    }

    fn append_mark(
        &mut self,
        username: &String,
        testname: &String,
        mark: &Score,
        _start_timestamp: &String,
        _end_timestamp: &String,
    ) -> bool {
        if !*self.accept.borrow() {
            return false;
        }
        self.marks
            .borrow_mut()
            .push((username.clone(), testname.clone(), *mark));
        true
    }
}

/// The end-to-end scenario: banner, two questions, two answers, one new
/// mark, and no variant left open.
#[test]
fn linux_end_to_end() {
    let db = MemDatabase::new();
    let mut examiner = Examiner::new(LinuxConfig {}, db.clone());
    let user = "student1".to_string();
    let test = "linux".to_string();

    let resp = examiner.next_question(&user, &test, 100);
    assert_eq!(
        resp,
        Response::TestStarted {
            banner: "welcome to linux".to_string()
        }
    );

    let resp = examiner.next_question(&user, &test, 101);
    let first_question = match resp {
        Response::NextQuestion { question, answers } => {
            assert_eq!(answers.len(), 3);
            question
        }
        other => panic!("expected a question, got {other:?}"),
    };

    let resp = examiner.put_answer(&user, &test, &Answer::new(vec![0]), 102);
    assert_eq!(resp, Response::Ack);

    let resp = examiner.next_question(&user, &test, 103);
    let second_question = match resp {
        Response::NextQuestion { question, answers } => {
            assert_eq!(answers.len(), 3);
            question
        }
        other => panic!("expected a question, got {other:?}"),
    };
    assert_ne!(first_question, second_question);

    let resp = examiner.put_answer(&user, &test, &Answer::new(vec![1]), 104);
    match resp {
        Response::End { marks } => match marks {
            Marks::Marks { marks } => assert_eq!(marks.len(), 1),
            other => panic!("expected visible marks, got {other:?}"),
        },
        other => panic!("expected the end of the test, got {other:?}"),
    }
    assert_eq!(db.marks.borrow().len(), 1);

    // No variant remains open: the next request starts a fresh attempt.
    let resp = examiner.next_question(&user, &test, 105);
    assert_eq!(
        resp,
        Response::TestStarted {
            banner: "welcome to linux".to_string()
        }
    );
}

/// Denied requests never mutate the session table or the store.
#[test]
fn access_denied_mutates_nothing() {
    let db = MemDatabase::new();
    let mut examiner = Examiner::new(LinuxConfig {}, db.clone());
    let resp = examiner.next_question(&"intruder".to_string(), &"linux".to_string(), 0);
    assert_eq!(resp, Response::NotAllowedUser);
    let resp = examiner.put_answer(
        &"intruder".to_string(),
        &"linux".to_string(),
        &Answer::new(vec![0]),
        0,
    );
    assert_eq!(resp, Response::NotAllowedUser);
    assert_eq!(db.marks.borrow().len(), 0);
    // The allowed user still starts from a clean slate.
    let resp = examiner.next_question(&"student1".to_string(), &"linux".to_string(), 0);
    assert_eq!(
        resp,
        Response::TestStarted {
            banner: "welcome to linux".to_string()
        }
    );
}

/// With attempts exhausted and no open variant, the engine answers with
/// the history and creates nothing.
#[test]
fn attempts_exhausted_ends() {
    let db = MemDatabase::new();
    for _ in 0..3 {
        db.marks
            .borrow_mut()
            .push(("student1".to_string(), "linux".to_string(), Score::new(1, 1)));
    }
    let mut examiner = Examiner::new(LinuxConfig {}, db.clone());
    let resp = examiner.next_question(&"student1".to_string(), &"linux".to_string(), 0);
    match resp {
        Response::End { marks } => match marks {
            Marks::Marks { marks } => assert_eq!(marks.len(), 3),
            other => panic!("expected visible marks, got {other:?}"),
        },
        other => panic!("expected the end of the test, got {other:?}"),
    }
    assert_eq!(db.marks.borrow().len(), 3);
    let resp = examiner.put_answer(
        &"student1".to_string(),
        &"linux".to_string(),
        &Answer::new(vec![0]),
        0,
    );
    match resp {
        Response::End { marks } => assert!(matches!(marks, Marks::Marks { .. })),
        other => panic!("expected the end of the test, got {other:?}"),
    }
}

/// An expired, started variant is finalized by the next sweep; a variant
/// that never fetched a question is never swept.
#[test]
fn sweep_finalizes_expired() {
    let db = MemDatabase::new();
    let mut examiner = Examiner::new(LinuxConfig {}, db.clone());
    let user = "student1".to_string();
    let test = "linux".to_string();

    // Open and start: timestamp is set at the first question.
    assert!(matches!(
        examiner.next_question(&user, &test, 100),
        Response::TestStarted { .. }
    ));
    assert!(matches!(
        examiner.next_question(&user, &test, 100),
        Response::NextQuestion { .. }
    ));

    // Not expired yet after four minutes.
    examiner.variant_collector(100 + 4 * 60);
    assert_eq!(db.marks.borrow().len(), 0);

    // Expired after five minutes and a second: the sweep records a mark.
    examiner.variant_collector(100 + 5 * 60 + 1);
    assert_eq!(db.marks.borrow().len(), 1);

    // The session is gone: a new request starts a fresh attempt.
    assert!(matches!(
        examiner.next_question(&user, &test, 500),
        Response::TestStarted { .. }
    ));

    // A never-started variant has no timestamp and is never swept.
    examiner.variant_collector(1_000_000);
    assert_eq!(db.marks.borrow().len(), 1);
}

/// When the store refuses the write, the variant stays for a retry and the
/// next sweep records it once the store recovers — never twice.
#[test]
fn failed_persist_retries_once() {
    let db = MemDatabase::new();
    let mut examiner = Examiner::new(LinuxConfig {}, db.clone());
    let user = "student1".to_string();
    let test = "linux".to_string();

    assert!(matches!(
        examiner.next_question(&user, &test, 0),
        Response::TestStarted { .. }
    ));
    assert!(matches!(
        examiner.next_question(&user, &test, 0),
        Response::NextQuestion { .. }
    ));

    *db.accept.borrow_mut() = false;
    examiner.variant_collector(10_000);
    assert_eq!(db.marks.borrow().len(), 0);

    *db.accept.borrow_mut() = true;
    examiner.variant_collector(10_001);
    assert_eq!(db.marks.borrow().len(), 1);
    examiner.variant_collector(10_002);
    assert_eq!(db.marks.borrow().len(), 1);
}

/// A batch of work items is processed strictly in order: the responses
/// equal those of issuing the same operations one by one.
#[test]
fn work_items_in_order() {
    let req = |command: Command| Request::new("student1", "linux", command);
    let work = vec![
        WorkItem { tick: Tick::Request { request: req(Command::GetAvaliableTests) }, now: 0 },
        WorkItem { tick: Tick::Request { request: req(Command::StartTest) }, now: 1 },
        WorkItem { tick: Tick::Request { request: req(Command::GetNextQuestion) }, now: 2 },
        WorkItem { tick: Tick::CollectCompletedTests, now: 3 },
        WorkItem { tick: Tick::Request { request: req(Command::GetNextQuestion) }, now: 4 },
        WorkItem {
            tick: Tick::Request {
                request: req(Command::PutAnswer { answer: Answer::new(vec![0]) }),
            },
            now: 5,
        },
        WorkItem { tick: Tick::CollectCompletedTests, now: 6 },
        WorkItem {
            tick: Tick::Request {
                request: req(Command::PutAnswer { answer: Answer::new(vec![1]) }),
            },
            now: 7,
        },
    ];

    let db = MemDatabase::new();
    let mut examiner = Examiner::new(LinuxConfig {}, db.clone());
    let responses = learned_cat::start_server(&mut examiner, work);

    assert_eq!(responses.len(), 8);
    assert!(matches!(responses[0], Some(Response::AvaliableTests { .. })));
    assert!(matches!(responses[1], Some(Response::TestStarted { .. })));
    assert!(matches!(responses[2], Some(Response::TestStarted { .. })));
    assert_eq!(responses[3], None);
    assert!(matches!(responses[4], Some(Response::NextQuestion { .. })));
    assert!(matches!(responses[5], Some(Response::Ack)));
    assert_eq!(responses[6], None);
    assert!(matches!(responses[7], Some(Response::End { .. })));
    assert_eq!(db.marks.borrow().len(), 1);

    // The same operations issued one at a time give the same responses.
    let db2 = MemDatabase::new();
    let mut one_by_one = Examiner::new(LinuxConfig {}, db2.clone());
    let r0 = one_by_one.avaliable_tests(&"student1".to_string());
    let r1 = one_by_one.banner_to_start_test(&"student1".to_string(), &"linux".to_string());
    let r2 = one_by_one.next_question(&"student1".to_string(), &"linux".to_string(), 2);
    one_by_one.variant_collector(3);
    let r4 = one_by_one.next_question(&"student1".to_string(), &"linux".to_string(), 4);
    let r5 = one_by_one.put_answer(
        &"student1".to_string(),
        &"linux".to_string(),
        &Answer::new(vec![0]),
        5,
    );
    one_by_one.variant_collector(6);
    let r7 = one_by_one.put_answer(
        &"student1".to_string(),
        &"linux".to_string(),
        &Answer::new(vec![1]),
        7,
    );
    assert_eq!(responses[0], Some(r0));
    assert_eq!(responses[1], Some(r1));
    assert_eq!(responses[2], Some(r2));
    assert!(matches!(r4, Response::NextQuestion { .. }));
    assert_eq!(responses[5], Some(r5));
    assert!(matches!(r7, Response::End { .. }));
    assert_eq!(db2.marks.borrow().len(), 1);
}

/// A configuration that hides results behind the completion marker.
struct HiddenConfig {}

impl Config for HiddenConfig {
    fn has_user(&self, _u: &String) -> bool {
        true
    }
    fn has_test(&self, _t: &String) -> bool {
        true
    }
    fn test_settings(&self, _t: &String) -> Option<TestSettings> {
        let mut st = linux_settings();
        st.show_results = false;
        Some(st)
    }
    fn test_banner(&self, _t: &String) -> Option<String> {
        None
    }
    fn question(&self, _t: &String, id: usize) -> Option<Question> {
        Some(linux_question(id))
    }
    fn questions_count(&self, _t: &String) -> Option<usize> {
        Some(6)
    }
    fn answer(&self, _t: &String, id: usize) -> Option<Answer> {
        Some(linux_question(id).correct_answer)
    }
    fn has_access(&self, _u: &String, _t: &String) -> bool {
        true
    }
    fn user_tests_list(&self, _u: &String) -> Vec<String> {
        vec!["linux".to_string()]
    }
    fn settings(&self) -> Settings {
        LinuxConfig {}.settings()
    }
}

/// A second test cannot be started while another is open, and a session
/// that never fetched a question accepts no answer.
#[test]
fn open_variant_guards() {
    let db = MemDatabase::new();
    let mut examiner = Examiner::new(TwoTestsConfig {}, db.clone());
    let user = "student1".to_string();
    assert!(matches!(
        examiner.next_question(&user, &"linux".to_string(), 0),
        Response::TestStarted { .. }
    ));
    // Submitting before the first question is fetched is refused: the
    // variant has no timestamp yet.
    assert_eq!(
        examiner.put_answer(&user, &"linux".to_string(), &Answer::new(vec![0]), 1),
        Response::ServerError
    );
    // Starting another test while one is open is refused too; the open
    // session stays intact.
    assert_eq!(
        examiner.next_question(&user, &"python".to_string(), 2),
        Response::ServerError
    );
    assert!(matches!(
        examiner.next_question(&user, &"linux".to_string(), 3),
        Response::NextQuestion { .. }
    ));
}

/// A configuration with two tests open to the same user.
struct TwoTestsConfig {}

impl Config for TwoTestsConfig {
    fn has_user(&self, username: &String) -> bool {
        *username == "student1".to_string()
    }
    fn has_test(&self, testname: &String) -> bool {
        *testname == "linux".to_string() || *testname == "python".to_string()
    }
    fn test_settings(&self, testname: &String) -> Option<TestSettings> {
        if self.has_test(testname) {
            let mut st = linux_settings();
            st.caption = testname.clone();
            Some(st)
        } else {
            None
        }
    }
    fn test_banner(&self, testname: &String) -> Option<String> {
        Some(format!("banner of {testname}"))
    }
    fn question(&self, testname: &String, question_id: usize) -> Option<Question> {
        if self.has_test(testname) && question_id < 6 {
            Some(linux_question(question_id))
        } else {
            None
        }
    }
    fn questions_count(&self, testname: &String) -> Option<usize> {
        if self.has_test(testname) {
            Some(6)
        } else {
            None
        }
    }
    fn answer(&self, testname: &String, question_id: usize) -> Option<Answer> {
        self.question(testname, question_id).map(|q| q.correct_answer)
    }
    fn has_access(&self, username: &String, testname: &String) -> bool {
        self.has_user(username) && self.has_test(testname)
    }
    fn user_tests_list(&self, _username: &String) -> Vec<String> {
        vec!["linux".to_string(), "python".to_string()]
    }
    fn settings(&self) -> Settings {
        LinuxConfig {}.settings()
    }
}

/// Hidden results show as the opaque completion marker.
#[test]
fn hidden_results_show_done() {
    let db = MemDatabase::new();
    db.marks
        .borrow_mut()
        .push(("who".to_string(), "linux".to_string(), Score::new(1, 2)));
    let mut examiner = Examiner::new(HiddenConfig {}, db.clone());
    let resp = examiner.avaliable_tests(&"who".to_string());
    assert_eq!(
        resp,
        Response::AvaliableTests {
            tests: vec![("linux".to_string(), Marks::Done)]
        }
    );
}
