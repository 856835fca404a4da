//! Course and teacher records of the teaching web service: the rules that
//! decide what a lookup, an insert or an update answers.

use vstd::prelude::*;

use crate::text::{decimal_text, push_chars, string_of, u64_chars};

verus! {

#[verifier::external_type_specification]
#[verifier::external_body]
pub struct ExNaiveDateTime(chrono::NaiveDateTime);

/// Errors that the service answers with.
#[derive(Debug, PartialEq, Eq)]
pub enum MyError {
    /// The database refused an operation.
    DBError(String),
    /// No record matches.
    NotFound(String),
}

impl MyError {
    /// The HTTP status of the error: 404 for a missing record, 500 for a
    /// database failure.
    pub fn status_code(&self) -> (r: u16)
        ensures
            r == (match self {
                MyError::NotFound(_) => 404u16,
                MyError::DBError(_) => 500u16,
            }),
    {
        match self {
            MyError::NotFound(_) => 404,
            MyError::DBError(_) => 500,
        }
    }
}

/// A course as the database stores it.
#[derive(Debug)]
pub struct Course {
    pub id: i32,
    pub teacher_id: i32,
    pub name: String,
    pub time: Option<chrono::NaiveDateTime>,
    pub description: Option<String>,
    pub format: Option<String>,
    pub structure: Option<String>,
    pub duration: Option<String>,
    pub price: Option<i32>,
    pub language: Option<String>,
    pub level: Option<String>,
}

/// The fields of a course that an update may change; a missing one keeps its
/// value.
#[derive(Debug)]
pub struct UpdateCourse {
    pub name: Option<String>,
    pub descriptioin: Option<String>,
    pub format: Option<String>,
    pub structure: Option<String>,
    pub duration: Option<String>,
    pub price: Option<i32>,
    pub language: Option<String>,
    pub level: Option<String>,
}

/// The values that an update writes into a course.
#[derive(Debug)]
pub struct CourseChanges {
    pub name: String,
    pub description: String,
    pub format: String,
    pub structure: String,
    pub duration: String,
    pub price: i32,
    pub language: String,
    pub level: String,
}

/// What a course holds, besides its ids and time.
pub ghost struct CourseFields {
    pub name: Seq<char>,
    pub description: Option<Seq<char>>,
    pub format: Option<Seq<char>>,
    pub structure: Option<Seq<char>>,
    pub duration: Option<Seq<char>>,
    pub price: Option<i32>,
    pub language: Option<Seq<char>>,
    pub level: Option<Seq<char>>,
}

/// The text of an optional field.
pub open spec fn opt_text(v: Option<String>) -> Option<Seq<char>> {
    match v {
        Some(s) => Some(s@),
        None => None,
    }
}

/// The fields of a course.
pub open spec fn fields_of(c: Course) -> CourseFields {
    CourseFields {
        name: c.name@,
        description: opt_text(c.description),
        format: opt_text(c.format),
        structure: opt_text(c.structure),
        duration: opt_text(c.duration),
        price: c.price,
        language: opt_text(c.language),
        level: opt_text(c.level),
    }
}

/// The text of an optional field, empty when it is absent
/// (`Option::unwrap_or_default`).
pub open spec fn text_or_empty(v: Option<Seq<char>>) -> Seq<char> {
    match v {
        Some(s) => s,
        None => Seq::empty(),
    }
}

/// The new value of a field: the update's when it has one, else the current
/// one.
pub open spec fn chosen(update: Option<String>, current: Seq<char>) -> Seq<char> {
    match update {
        Some(s) => s@,
        None => current,
    }
}

/// The values an update writes.
pub type CourseValues = (Seq<char>, Seq<char>, Seq<char>, Seq<char>, Seq<char>, i32, Seq<char>, Seq<char>);

/// The values that `update` writes into a course with fields `f`: each
/// field given by the update, the others as they are, an absent text field
/// as empty and an absent price as 0.
pub open spec fn merge_fields(f: CourseFields, update: UpdateCourse) -> CourseValues {
    (
        chosen(update.name, f.name),
        chosen(update.descriptioin, text_or_empty(f.description)),
        chosen(update.format, text_or_empty(f.format)),
        chosen(update.structure, text_or_empty(f.structure)),
        chosen(update.duration, text_or_empty(f.duration)),
        match update.price {
            Some(p) => p,
            None => match f.price {
                Some(p) => p,
                None => 0i32,
            },
        },
        chosen(update.language, text_or_empty(f.language)),
        chosen(update.level, text_or_empty(f.level)),
    )
}

/// The values that `update` writes into `current`.
pub open spec fn merged_course(current: Course, update: UpdateCourse) -> CourseValues {
    merge_fields(fields_of(current), update)
}

/// The fields of a course after the values are written.
pub open spec fn stored(v: CourseValues) -> CourseFields {
    CourseFields {
        name: v.0,
        description: Some(v.1),
        format: Some(v.2),
        structure: Some(v.3),
        duration: Some(v.4),
        price: Some(v.5),
        language: Some(v.6),
        level: Some(v.7),
    }
}

/// Sending the same update twice writes what it wrote the first time.
pub proof fn lemma_update_idempotent(f: CourseFields, update: UpdateCourse)
    ensures
        merge_fields(stored(merge_fields(f, update)), update) == merge_fields(f, update),
{
}

/// An update that gives every field writes exactly its values, whatever the
/// course held.
pub proof fn lemma_full_update_overrides(f: CourseFields, g: CourseFields, update: UpdateCourse)
    requires
        update.name is Some && update.descriptioin is Some && update.format is Some
            && update.structure is Some && update.duration is Some && update.price is Some
            && update.language is Some && update.level is Some,
    ensures
        merge_fields(f, update) == merge_fields(g, update),
{
}

/// An update writes each field it gives and keeps each field it leaves out:
/// a name left out keeps the stored name, a text field left out keeps the
/// stored text (empty when none is stored), and a price left out keeps the
/// stored price (0 when none is stored).
pub proof fn lemma_update_writes_given_keeps_rest(c: Course, u: UpdateCourse)
    ensures
        u.name matches Some(n) ==> merged_course(c, u).0 == n@,
        u.name is None ==> merged_course(c, u).0 == c.name@,
        u.price matches Some(p) ==> merged_course(c, u).5 == p,
        (u.price is None && c.price is Some) ==> merged_course(c, u).5 == c.price->Some_0,
        (u.price is None && c.price is None) ==> merged_course(c, u).5 == 0,
        u.descriptioin matches Some(x) ==> merged_course(c, u).1 == x@,
        (u.descriptioin is None && c.description is Some) ==> merged_course(c, u).1 == c.description->Some_0@,
        (u.descriptioin is None && c.description is None) ==> merged_course(c, u).1 == Seq::<char>::empty(),
        u.format matches Some(x) ==> merged_course(c, u).2 == x@,
        (u.format is None && c.format is Some) ==> merged_course(c, u).2 == c.format->Some_0@,
        (u.format is None && c.format is None) ==> merged_course(c, u).2 == Seq::<char>::empty(),
        u.structure matches Some(x) ==> merged_course(c, u).3 == x@,
        (u.structure is None && c.structure is Some) ==> merged_course(c, u).3 == c.structure->Some_0@,
        (u.structure is None && c.structure is None) ==> merged_course(c, u).3 == Seq::<char>::empty(),
        u.duration matches Some(x) ==> merged_course(c, u).4 == x@,
        (u.duration is None && c.duration is Some) ==> merged_course(c, u).4 == c.duration->Some_0@,
        (u.duration is None && c.duration is None) ==> merged_course(c, u).4 == Seq::<char>::empty(),
        u.language matches Some(x) ==> merged_course(c, u).6 == x@,
        (u.language is None && c.language is Some) ==> merged_course(c, u).6 == c.language->Some_0@,
        (u.language is None && c.language is None) ==> merged_course(c, u).6 == Seq::<char>::empty(),
        u.level matches Some(x) ==> merged_course(c, u).7 == x@,
        (u.level is None && c.level is Some) ==> merged_course(c, u).7 == c.level->Some_0@,
        (u.level is None && c.level is None) ==> merged_course(c, u).7 == Seq::<char>::empty(),
{
}

/// The values held by a set of changes.
pub open spec fn changes_view(c: CourseChanges) -> CourseValues {
    (c.name@, c.description@, c.format@, c.structure@, c.duration@, c.price, c.language@, c.level@)
}

fn copy_text(s: &String) -> (r: String)
    ensures
        r@ == s@,
{
    s.clone()
}

fn pick(update: Option<String>, current: &Option<String>) -> (r: String)
    ensures
        r@ == chosen(update, text_or_empty(opt_text(*current))),
{
    match update {
        Some(s) => s,
        None => match current {
            Some(c) => copy_text(c),
            None => String::new(),
        },
    }
}

/// Merges an update into a course, giving the values to write.
pub fn merge_course_update(current: &Course, update: UpdateCourse) -> (r: CourseChanges)
    ensures
        changes_view(r) == merged_course(*current, update),
{
    let ghost u = update;
    let UpdateCourse { name, descriptioin, format, structure, duration, price, language, level } =
        update;
    let name = match name {
        Some(n) => n,
        None => copy_text(&current.name),
    };
    let price = match price {
        Some(p) => p,
        None => match current.price {
            Some(p) => p,
            None => 0,
        },
    };
    CourseChanges {
        name,
        description: pick(descriptioin, &current.description),
        format: pick(format, &current.format),
        structure: pick(structure, &current.structure),
        duration: pick(duration, &current.duration),
        price,
        language: pick(language, &current.language),
        level: pick(level, &current.level),
    }
}

fn not_found(msg: &[char]) -> (r: MyError)
    ensures
        r matches MyError::NotFound(m) && m@ == msg@,
{
    MyError::NotFound(string_of(msg))
}

/// The message when the course to update is not found.
pub open spec fn update_lookup_message() -> Seq<char> {
    seq!['C', 'o', 'u', 'r', 's', 'e', ' ', 'i', 'd', ' ', 'n', 'o', 't', ' ', 'f', 'o', 'u', 'd']
}

/// The message when a course is not found.
pub open spec fn course_missing_message() -> Seq<char> {
    seq!['C', 'o', 'u', 'r', 's', 'e', ' ', 'i', 'd', ' ', 'n', 'o', 't', ' ', 'f', 'o', 'u', 'n', 'd']
}

/// The first step of updating a course: the values to write when the course
/// was found, else `NotFound("Course id not foud")`.
pub fn update_course_details(current: Option<Course>, update: UpdateCourse) -> (r: Result<
    CourseChanges,
    MyError,
>)
    ensures
        match current {
            Some(c) => r matches Ok(ch) && changes_view(ch) == merged_course(c, update),
            None => r matches Err(MyError::NotFound(m)) && m@ == update_lookup_message(),
        },
{
    match current {
        Some(c) => Ok(merge_course_update(&c, update)),
        None => {
            let m = [
                'C', 'o', 'u', 'r', 's', 'e', ' ', 'i', 'd', ' ', 'n', 'o', 't', ' ', 'f', 'o', 'u', 'd',
            ];
            assert(m@ =~= update_lookup_message());
            Err(not_found(&m))
        },
    }
}

/// A course looked up by teacher and id: the course, or
/// `NotFound("Course id not found")`.
pub fn course_or_not_found(row: Option<Course>) -> (r: Result<Course, MyError>)
    ensures
        match row {
            Some(c) => r == Ok::<Course, MyError>(c),
            None => r matches Err(MyError::NotFound(m)) && m@ == course_missing_message(),
        },
{
    match row {
        Some(c) => Ok(c),
        None => {
            let m = [
                'C', 'o', 'u', 'r', 's', 'e', ' ', 'i', 'd', ' ', 'n', 'o', 't', ' ', 'f', 'o', 'u', 'n', 'd',
            ];
            assert(m@ =~= course_missing_message());
            Err(not_found(&m))
        },
    }
}

/// The answer to deleting a course of which `rows` rows were deleted:
/// `Delete PgQueryResult { rows_affected: <rows> } record`.
pub open spec fn delete_message(rows: nat) -> Seq<char> {
    seq![
        'D', 'e', 'l', 'e', 't', 'e', ' ', 'P', 'g', 'Q', 'u', 'e', 'r', 'y', 'R', 'e', 's', 'u', 'l',
        't', ' ', '{', ' ', 'r', 'o', 'w', 's', '_', 'a', 'f', 'f', 'e', 'c', 't', 'e', 'd', ':', ' ',
    ] + decimal_text(rows) + seq![' ', '}', ' ', 'r', 'e', 'c', 'o', 'r', 'd']
}

/// The answer to deleting a course, given how many rows the deletion
/// removed: `NotFound("Course id not found")` when none was, else the
/// message that names the count.
pub fn deleted_course(rows_affected: u64) -> (r: Result<String, MyError>)
    ensures
        if rows_affected == 0 {
            r matches Err(MyError::NotFound(m)) && m@ == course_missing_message()
        } else {
            r matches Ok(t) && t@ == delete_message(rows_affected as nat)
        },
{
    if rows_affected == 0 {
        let m = [
            'C', 'o', 'u', 'r', 's', 'e', ' ', 'i', 'd', ' ', 'n', 'o', 't', ' ', 'f', 'o', 'u', 'n', 'd',
        ];
        assert(m@ =~= course_missing_message());
        return Err(not_found(&m));
    }
    let head = [
        'D', 'e', 'l', 'e', 't', 'e', ' ', 'P', 'g', 'Q', 'u', 'e', 'r', 'y', 'R', 'e', 's', 'u', 'l',
        't', ' ', '{', ' ', 'r', 'o', 'w', 's', '_', 'a', 'f', 'f', 'e', 'c', 't', 'e', 'd', ':', ' ',
    ];
    let tail = [' ', '}', ' ', 'r', 'e', 'c', 'o', 'r', 'd'];
    let mut t = string_of(&head);
    let d = u64_chars(rows_affected);
    push_chars(&mut t, d.as_slice());
    push_chars(&mut t, &tail);
    assert(t@ =~= delete_message(rows_affected as nat));
    Ok(t)
}

/// The message when a teacher has no course.
pub open spec fn no_courses_message() -> Seq<char> {
    seq![
        'C', 'o', 'u', 'r', 's', 'e', ' ', 'n', 'o', 't', ' ', 'f', 'o', 'u', 'n', 'd', ' ', 'f', 'o',
        'r', ' ', 't', 'e', 'a', 'c', 'h', 'e', 'r',
    ]
}

/// A teacher's courses: the list, or `NotFound("Course not found for
/// teacher")` when it is empty.
pub fn courses_or_not_found(courses: Vec<Course>) -> (r: Result<Vec<Course>, MyError>)
    ensures
        courses@.len() > 0 ==> r == Ok::<Vec<Course>, MyError>(courses),
        courses@.len() == 0 ==> (r matches Err(MyError::NotFound(m)) && m@ == no_courses_message()),
{
    if courses.len() == 0 {
        let m = [
            'C', 'o', 'u', 'r', 's', 'e', ' ', 'n', 'o', 't', ' ', 'f', 'o', 'u', 'n', 'd', ' ', 'f',
            'o', 'r', ' ', 't', 'e', 'a', 'c', 'h', 'e', 'r',
        ];
        assert(m@ =~= no_courses_message());
        Err(not_found(&m))
    } else {
        Ok(courses)
    }
}

/// The largest id among the courses.
pub open spec fn max_id(ids: Seq<i32>) -> i32
    decreases ids.len(),
{
    if ids.len() == 0 {
        0
    } else if ids.len() == 1 {
        ids[0]
    } else {
        let m = max_id(ids.drop_last());
        if m > ids.last() {
            m
        } else {
            ids.last()
        }
    }
}

/// The ids of the courses.
pub open spec fn course_ids(courses: Seq<Course>) -> Seq<i32> {
    courses.map_values(|c: Course| c.id)
}

/// The id of a new course: one more than the largest id, or 1 when there is
/// no course.
pub open spec fn next_id(ids: Seq<i32>) -> int {
    if ids.len() == 0 {
        1
    } else {
        max_id(ids) + 1
    }
}

/// The largest id is at least every id, and is one of them.
pub proof fn lemma_max_id_bounds(ids: Seq<i32>)
    requires
        ids.len() > 0,
    ensures
        forall|i: int| 0 <= i < ids.len() ==> ids[i] <= max_id(ids),
        exists|i: int| 0 <= i < ids.len() && ids[i] == max_id(ids),
    decreases ids.len(),
{
    if ids.len() > 1 {
        lemma_max_id_bounds(ids.drop_last());
        let m = max_id(ids.drop_last());
        assert forall|i: int| 0 <= i < ids.len() implies ids[i] <= max_id(ids) by {
            if i < ids.len() - 1 {
                assert(ids.drop_last()[i] == ids[i]);
            }
        }
        if m > ids.last() {
            let j = choose|j: int| 0 <= j < ids.drop_last().len() && ids.drop_last()[j] == m;
            assert(ids[j] == m);
        } else {
            assert(ids[ids.len() - 1] == max_id(ids));
        }
    } else {
        assert(ids[0] == max_id(ids));
    }
}

/// The id given to a new course (as the service computes it before
/// inserting), or `None` when it would not fit an `i32`.
pub fn next_course_id(courses: &Vec<Course>) -> (r: Option<i32>)
    ensures
        r is Some <==> next_id(course_ids(courses@)) <= i32::MAX,
        r matches Some(v) ==> v == next_id(course_ids(courses@)),
{
    let ghost ids = course_ids(courses@);
    if courses.len() == 0 {
        return Some(1);
    }
    let mut m = courses[0].id;
    let mut i: usize = 1;
    while i < courses.len()
        invariant
            ids == course_ids(courses@),
            1 <= i <= courses@.len(),
            m == max_id(ids.take(i as int)),
        decreases courses@.len() - i,
    {
        assert(ids.take(i + 1).drop_last() == ids.take(i as int));
        let id = courses[i].id;
        if !(m > id) {
            m = id;
        }
        i += 1;
    }
    assert(ids.take(courses@.len() as int) == ids);
    if m == i32::MAX {
        None
    } else {
        Some(m + 1)
    }
}

/// A new course's id is above every id in use, so it names no existing
/// course.
pub proof fn lemma_next_id_is_fresh(ids: Seq<i32>)
    ensures
        forall|i: int| 0 <= i < ids.len() ==> ids[i] < next_id(ids),
{
    if ids.len() > 0 {
        lemma_max_id_bounds(ids);
    }
}

/// A teacher.
#[derive(Debug)]
pub struct Teacher {
    pub id: i32,
    pub name: String,
    pub picture_url: String,
    pub profile: String,
}

/// The fields of a teacher that an update may change.
#[derive(Debug)]
pub struct UpdateTeacher {
    pub name: Option<String>,
    pub picture_url: Option<String>,
    pub profile: Option<String>,
}

/// A teacher after an update: the same id, each field from the update when
/// it has one.
pub open spec fn merged_teacher(current: Teacher, update: UpdateTeacher) -> (i32, Seq<char>, Seq<
    char,
>, Seq<char>) {
    (
        current.id,
        chosen(update.name, current.name@),
        chosen(update.picture_url, current.picture_url@),
        chosen(update.profile, current.profile@),
    )
}

/// A teacher update keeps the id, writes each field it gives and keeps each
/// field it leaves out.
pub proof fn lemma_teacher_update_writes_given_keeps_rest(t: Teacher, u: UpdateTeacher)
    ensures
        merged_teacher(t, u).0 == t.id,
        u.name matches Some(n) ==> merged_teacher(t, u).1 == n@,
        u.name is None ==> merged_teacher(t, u).1 == t.name@,
        u.picture_url matches Some(p) ==> merged_teacher(t, u).2 == p@,
        u.picture_url is None ==> merged_teacher(t, u).2 == t.picture_url@,
        u.profile matches Some(p) ==> merged_teacher(t, u).3 == p@,
        u.profile is None ==> merged_teacher(t, u).3 == t.profile@,
{
}

/// What a teacher record holds.
pub open spec fn teacher_view(t: Teacher) -> (i32, Seq<char>, Seq<char>, Seq<char>) {
    (t.id, t.name@, t.picture_url@, t.profile@)
}

/// Merges an update into a teacher.
pub fn merge_teacher_update(current: Teacher, update: UpdateTeacher) -> (r: Teacher)
    ensures
        teacher_view(r) == merged_teacher(current, update),
{
    let Teacher { id, name, picture_url, profile } = current;
    Teacher {
        id,
        name: match update.name {
            Some(n) => n,
            None => name,
        },
        picture_url: match update.picture_url {
            Some(p) => p,
            None => picture_url,
        },
        profile: match update.profile {
            Some(p) => p,
            None => profile,
        },
    }
}

/// The message when no teacher is found.
pub open spec fn no_records_message() -> Seq<char> {
    seq!['N', 'o', 't', ' ', 'f', 'o', 'u', 'n', 'd', ' ', 'r', 'e', 'c', 'o', 'r', 'd', 's']
}

fn no_records() -> (r: MyError)
    ensures
        r matches MyError::NotFound(m) && m@ == no_records_message(),
{
    let m = ['N', 'o', 't', ' ', 'f', 'o', 'u', 'n', 'd', ' ', 'r', 'e', 'c', 'o', 'r', 'd', 's'];
    assert(m@ =~= no_records_message());
    not_found(&m)
}

/// All teachers: the list, or `NotFound("Not found records")` when there is
/// none.
pub fn teachers_or_not_found(teachers: Vec<Teacher>) -> (r: Result<Vec<Teacher>, MyError>)
    ensures
        teachers@.len() > 0 ==> r == Ok::<Vec<Teacher>, MyError>(teachers),
        teachers@.len() == 0 ==> (r matches Err(MyError::NotFound(m)) && m@ == no_records_message()),
{
    if teachers.len() == 0 {
        Err(no_records())
    } else {
        Ok(teachers)
    }
}

/// A teacher looked up by id: the teacher, or `NotFound("Not found
/// records")`.
pub fn teacher_or_not_found(row: Option<Teacher>) -> (r: Result<Teacher, MyError>)
    ensures
        match row {
            Some(t) => r == Ok::<Teacher, MyError>(t),
            None => r matches Err(MyError::NotFound(m)) && m@ == no_records_message(),
        },
{
    match row {
        Some(t) => Ok(t),
        None => Err(no_records()),
    }
}

/// The message when the teacher to update is gone.
pub open spec fn teacher_missing_message() -> Seq<char> {
    seq![
        'T', 'e', 'a', 'c', 'h', 'e', 'r', ' ', 'i', 'd', ' ', 'n', 'o', 't', ' ', 'f', 'o', 'u', 'n',
        'd',
    ]
}

/// The stored teacher after an update: the row the database returned, or
/// `NotFound("Teacher id not found")`.
pub fn updated_teacher_or_not_found(row: Option<Teacher>) -> (r: Result<Teacher, MyError>)
    ensures
        match row {
            Some(t) => r == Ok::<Teacher, MyError>(t),
            None => r matches Err(MyError::NotFound(m)) && m@ == teacher_missing_message(),
        },
{
    match row {
        Some(t) => Ok(t),
        None => {
            let m = [
                'T', 'e', 'a', 'c', 'h', 'e', 'r', ' ', 'i', 'd', ' ', 'n', 'o', 't', ' ', 'f', 'o',
                'u', 'n', 'd',
            ];
            assert(m@ =~= teacher_missing_message());
            Err(not_found(&m))
        },
    }
}

/// The message when a delete fails.
pub open spec fn delete_failed_message() -> Seq<char> {
    seq![
        'U', 'n', 'a', 'b', 'l', 'e', ' ', 't', 'o', ' ', 'd', 'e', 'l', 'e', 't', 'e', ' ', 't', 'e',
        'a', 'c', 'h', 'e', 'r',
    ]
}

/// The answer to deleting a teacher that was found: the deleted record, or
/// `DBError("Unable to delete teacher")` when the delete failed.
pub fn deleted_teacher(record: Teacher, deleted: bool) -> (r: Result<Teacher, MyError>)
    ensures
        deleted ==> r == Ok::<Teacher, MyError>(record),
        !deleted ==> (r matches Err(MyError::DBError(m)) && m@ == delete_failed_message()),
{
    if deleted {
        Ok(record)
    } else {
        let m = [
            'U', 'n', 'a', 'b', 'l', 'e', ' ', 't', 'o', ' ', 'd', 'e', 'l', 'e', 't', 'e', ' ', 't',
            'e', 'a', 'c', 'h', 'e', 'r',
        ];
        assert(m@ =~= delete_failed_message());
        Err(MyError::DBError(string_of(&m)))
    }
}

} // verus!
