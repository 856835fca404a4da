//! The first version of the course service, which keeps its courses in
//! memory.

use vstd::prelude::*;

use crate::text::{decimal_text, push_chars, push_str, u64_chars};

verus! {

/// A course held in memory.
#[derive(Debug)]
pub struct MemCourse {
    pub teacher_id: usize,
    pub id: Option<usize>,
    pub name: String,
    pub time: Option<chrono::NaiveDateTime>,
}

/// The courses of one teacher, in order.
pub open spec fn of_teacher(cs: Seq<MemCourse>, teacher_id: usize) -> Seq<MemCourse>
    decreases cs.len(),
{
    if cs.len() == 0 {
        Seq::empty()
    } else if cs.last().teacher_id == teacher_id {
        of_teacher(cs.drop_last(), teacher_id).push(cs.last())
    } else {
        of_teacher(cs.drop_last(), teacher_id)
    }
}

/// Number of courses of a teacher.
fn count_of_teacher(cs: &Vec<MemCourse>, teacher_id: usize) -> (r: usize)
    ensures
        r == of_teacher(cs@, teacher_id).len(),
{
    let mut n: usize = 0;
    let mut i: usize = 0;
    while i < cs.len()
        invariant
            i <= cs@.len(),
            n == of_teacher(cs@.take(i as int), teacher_id).len(),
            n <= i,
        decreases cs@.len() - i,
    {
        assert(cs@.take(i + 1).drop_last() == cs@.take(i as int));
        if cs[i].teacher_id == teacher_id {
            n = n + 1;
        }
        i += 1;
    }
    assert(cs@.take(cs@.len() as int) == cs@);
    n
}

/// Adds a course for `teacher_id`, numbered one past that teacher's course
/// count, stamped with `time`.
pub fn new_course(
    courses: &mut Vec<MemCourse>,
    teacher_id: usize,
    name: String,
    time: Option<chrono::NaiveDateTime>,
)
    requires
        of_teacher(old(courses)@, teacher_id).len() < usize::MAX,
    ensures
        final(courses)@ == old(courses)@.push(
            MemCourse {
                teacher_id,
                id: Some((of_teacher(old(courses)@, teacher_id).len() + 1) as usize),
                name,
                time,
            },
        ),
{
    let count = count_of_teacher(courses, teacher_id);
    courses.push(MemCourse { teacher_id, id: Some(count + 1), name, time });
}

/// The courses of one teacher.
pub fn get_courses_for_teacher(courses: &Vec<MemCourse>, teacher_id: usize) -> (r: Vec<&MemCourse>)
    ensures
        r@.unref() == of_teacher(courses@, teacher_id),
{
    let mut r: Vec<&MemCourse> = Vec::new();
    let mut i: usize = 0;
    while i < courses.len()
        invariant
            i <= courses@.len(),
            r@.unref() == of_teacher(courses@.take(i as int), teacher_id),
        decreases courses@.len() - i,
    {
        assert(courses@.take(i + 1).drop_last() == courses@.take(i as int));
        if courses[i].teacher_id == teacher_id {
            let ghost before = r@.unref();
            r.push(&courses[i]);
            assert(r@.unref() =~= before.push(courses@[i as int]));
        }
        i += 1;
    }
    assert(courses@.take(courses@.len() as int) == courses@);
    r
}

/// The first course of `teacher_id` numbered `course_id`, if any.
pub fn get_course_detail(courses: &Vec<MemCourse>, teacher_id: usize, course_id: usize) -> (r:
    Option<&MemCourse>)
    ensures
        match r {
            Some(c) => exists|i: int|
                0 <= i < courses@.len() && courses@[i] == *c && c.teacher_id == teacher_id && c.id
                    == Some(course_id) && forall|j: int|
                    0 <= j < i ==> !(courses@[j].teacher_id == teacher_id && courses@[j].id == Some(
                        course_id,
                    )),
            None => forall|j: int|
                0 <= j < courses@.len() ==> !(#[trigger] courses@[j].teacher_id == teacher_id
                    && courses@[j].id == Some(course_id)),
        },
{
    let mut i: usize = 0;
    while i < courses.len()
        invariant
            i <= courses@.len(),
            forall|j: int|
                0 <= j < i ==> !(#[trigger] courses@[j].teacher_id == teacher_id && courses@[j].id
                    == Some(course_id)),
        decreases courses@.len() - i,
    {
        let c = &courses[i];
        let same_id = match c.id {
            Some(id) => id == course_id,
            None => false,
        };
        if c.teacher_id == teacher_id && same_id {
            return Some(c);
        }
        i += 1;
    }
    None
}

/// A course added for a teacher is listed last among that teacher's
/// courses, after the ones listed before.
pub proof fn lemma_new_course_listed(cs: Seq<MemCourse>, c: MemCourse)
    ensures
        of_teacher(cs.push(c), c.teacher_id) == of_teacher(cs, c.teacher_id).push(c),
{
    assert(cs.push(c).drop_last() == cs);
}

/// A course added for one teacher does not change another teacher's list.
pub proof fn lemma_new_course_other_teacher(cs: Seq<MemCourse>, c: MemCourse, other: usize)
    requires
        other != c.teacher_id,
    ensures
        of_teacher(cs.push(c), other) == of_teacher(cs, other),
{
    assert(cs.push(c).drop_last() == cs);
}

/// `c` is the course numbered `id` of teacher `t`.
pub open spec fn is_course(c: MemCourse, t: usize, id: usize) -> bool {
    c.teacher_id == t && c.id == Some(id)
}

/// Every course of teacher `t` is numbered between 1 and the number of that
/// teacher's courses, as [`new_course`] numbers them.
pub open spec fn numbered_within(cs: Seq<MemCourse>, t: usize) -> bool {
    forall|j: int|
        0 <= j < cs.len() && #[trigger] cs[j].teacher_id == t ==> (cs[j].id matches Some(i) && 1 <= i
            <= of_teacher(cs, t).len())
}

/// A course added by [`new_course`] is what a later lookup of its teacher
/// and number finds, and the numbering stays within bounds.
pub proof fn lemma_new_course_found(cs: Seq<MemCourse>, c: MemCourse)
    requires
        numbered_within(cs, c.teacher_id),
        c.id == Some((of_teacher(cs, c.teacher_id).len() + 1) as usize),
        of_teacher(cs, c.teacher_id).len() < usize::MAX,
    ensures
        is_course(c, c.teacher_id, (of_teacher(cs, c.teacher_id).len() + 1) as usize),
        forall|j: int|
            0 <= j < cs.len() ==> !is_course(
                #[trigger] cs[j],
                c.teacher_id,
                (of_teacher(cs, c.teacher_id).len() + 1) as usize,
            ),
        numbered_within(cs.push(c), c.teacher_id),
{
    let t = c.teacher_id;
    let n = of_teacher(cs, t).len();
    lemma_new_course_listed(cs, c);
    assert forall|j: int| 0 <= j < cs.push(c).len() && #[trigger] cs.push(c)[j].teacher_id == t implies (cs.push(
        c,
    )[j].id matches Some(i) && 1 <= i <= of_teacher(cs.push(c), t).len()) by {
        if j < cs.len() {
            assert(cs.push(c)[j] == cs[j]);
        }
    }
    assert forall|j: int| 0 <= j < cs.len() implies !is_course(#[trigger] cs[j], t, (n + 1) as usize) by {
        if cs[j].teacher_id == t {
            assert(cs[j].id matches Some(i) && i <= n);
        }
    }
}

/// The text of the health check: the configured response, the visit count
/// and `times`.
pub open spec fn health_text(response: Seq<char>, count: u32) -> Seq<char> {
    response + seq![' '] + decimal_text(count as nat) + seq![' ', 't', 'i', 'm', 'e', 's']
}

/// Answers a health check and counts the visit.
pub fn health_check(response: &str, visit_count: &mut u32) -> (r: String)
    requires
        *old(visit_count) < u32::MAX,
    ensures
        r@ == health_text(response@, *old(visit_count)),
        *final(visit_count) == *old(visit_count) + 1,
{
    let mut r = String::new();
    push_str(&mut r, response);
    let sp = [' '];
    push_chars(&mut r, &sp);
    let d = u64_chars(*visit_count as u64);
    push_chars(&mut r, d.as_slice());
    let times = [' ', 't', 'i', 'm', 'e', 's'];
    push_chars(&mut r, &times);
    assert(sp@ =~= seq![' '] && times@ =~= seq![' ', 't', 'i', 'm', 'e', 's']);
    *visit_count = *visit_count + 1;
    r
}

} // verus!
