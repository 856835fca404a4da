use rust_study::course::{
    course_or_not_found, courses_or_not_found, deleted_course, deleted_teacher, merge_course_update, merge_teacher_update,
    next_course_id, teacher_or_not_found, teachers_or_not_found, update_course_details,
    updated_teacher_or_not_found, Course, MyError, Teacher, UpdateCourse, UpdateTeacher,
};
use rust_study::memory_course::{get_course_detail, get_courses_for_teacher, health_check, new_course, MemCourse};

fn course(id: i32, teacher_id: i32) -> Course {
    Course {
        id,
        teacher_id,
        name: format!("course {}", id),
        time: None,
        description: Some("This is a course".into()),
        format: None,
        structure: None,
        duration: None,
        price: None,
        language: Some("English".into()),
        level: Some("Beginner".into()),
    }
}

fn empty_update() -> UpdateCourse {
    UpdateCourse { name: None, descriptioin: None, format: None, structure: None, duration: None, price: None, language: None, level: None }
}

#[test]
fn next_id_is_one_past_the_largest() {
    assert_eq!(next_course_id(&vec![]), Some(1));
    assert_eq!(next_course_id(&vec![course(3, 1), course(7, 1), course(5, 2)]), Some(8));
    assert_eq!(next_course_id(&vec![course(i32::MAX, 1)]), None);
}

#[test]
fn update_merges_fields() {
    let current = course(1, 1);
    let update = UpdateCourse {
        name: Some("Course name changed".into()),
        descriptioin: Some("This is another test course".into()),
        format: None,
        structure: None,
        duration: None,
        price: None,
        language: Some("Chinese".into()),
        level: Some("Intermediate".into()),
    };
    let ch = merge_course_update(&current, update);
    assert_eq!(ch.name, "Course name changed");
    assert_eq!(ch.description, "This is another test course");
    assert_eq!(ch.format, "");
    assert_eq!(ch.price, 0);
    assert_eq!(ch.language, "Chinese");
    assert_eq!(ch.level, "Intermediate");
    let ch = merge_course_update(&current, empty_update());
    assert_eq!(ch.name, "course 1");
    assert_eq!(ch.description, "This is a course");
    let err = update_course_details(None, empty_update()).unwrap_err();
    assert_eq!(err, MyError::NotFound("Course id not foud".into()));
    assert_eq!(err.status_code(), 404);
}

#[test]
fn lookups_not_found() {
    assert_eq!(course_or_not_found(None).unwrap_err(), MyError::NotFound("Course id not found".into()));
    assert_eq!(course_or_not_found(Some(course(1, 1))).unwrap().id, 1);
    assert_eq!(courses_or_not_found(vec![]).unwrap_err(), MyError::NotFound("Course not found for teacher".into()));
    assert_eq!(courses_or_not_found(vec![course(1, 1)]).unwrap().len(), 1);
    assert_eq!(teachers_or_not_found(vec![]).unwrap_err(), MyError::NotFound("Not found records".into()));
    assert_eq!(teacher_or_not_found(None).unwrap_err(), MyError::NotFound("Not found records".into()));
    assert_eq!(updated_teacher_or_not_found(None).unwrap_err(), MyError::NotFound("Teacher id not found".into()));
}

#[test]
fn teacher_update_and_delete() {
    let t = Teacher { id: 3, name: "Old".into(), picture_url: "purl".into(), profile: "p".into() };
    let u = UpdateTeacher { name: None, picture_url: None, profile: Some("还是原来的程集小学吗?".into()) };
    let n = merge_teacher_update(t, u);
    assert_eq!(n.id, 3);
    assert_eq!(n.name, "Old");
    assert_eq!(n.picture_url, "purl");
    assert_eq!(n.profile, "还是原来的程集小学吗?");
    let err = deleted_teacher(n, false).unwrap_err();
    assert_eq!(err, MyError::DBError("Unable to delete teacher".into()));
    assert_eq!(err.status_code(), 500);
}

#[test]
fn in_memory_courses() {
    let mut courses: Vec<MemCourse> = Vec::new();
    new_course(&mut courses, 1, "Test course".into(), None);
    new_course(&mut courses, 2, "Other".into(), None);
    new_course(&mut courses, 1, "Second".into(), None);
    assert_eq!(courses[0].id, Some(1));
    assert_eq!(courses[1].id, Some(1));
    assert_eq!(courses[2].id, Some(2));
    let mine = get_courses_for_teacher(&courses, 1);
    assert_eq!(mine.len(), 2);
    assert_eq!(mine[1].name, "Second");
    assert!(get_courses_for_teacher(&courses, 9).is_empty());
    assert_eq!(get_course_detail(&courses, 1, 2).unwrap().name, "Second");
    assert!(get_course_detail(&courses, 1, 3).is_none());
    assert!(get_course_detail(&Vec::new(), 1, 1).is_none());
}

#[test]
fn health_check_counts_visits() {
    let mut n: u32 = 0;
    assert_eq!(health_check("I'm OK", &mut n), "I'm OK 0 times");
    assert_eq!(health_check("I'm OK", &mut n), "I'm OK 1 times");
    assert_eq!(n, 2);
}

#[test]
fn same_update_twice_writes_the_same() {
    let current = course(2, 1);
    let update = || UpdateCourse {
        name: None,
        descriptioin: Some("new".into()),
        format: None,
        structure: Some("weekly".into()),
        duration: None,
        price: Some(10),
        language: None,
        level: None,
    };
    let first = merge_course_update(&current, update());
    let stored = Course {
        id: 2,
        teacher_id: 1,
        name: first.name.clone(),
        time: None,
        description: Some(first.description.clone()),
        format: Some(first.format.clone()),
        structure: Some(first.structure.clone()),
        duration: Some(first.duration.clone()),
        price: Some(first.price),
        language: Some(first.language.clone()),
        level: Some(first.level.clone()),
    };
    let second = merge_course_update(&stored, update());
    assert_eq!(
        (second.name, second.description, second.format, second.structure, second.duration, second.price, second.language, second.level),
        (first.name, first.description, first.format, first.structure, first.duration, first.price, first.language, first.level)
    );
}

#[test]
fn deleting_a_missing_course_is_not_found() {
    match deleted_course(0) {
        Err(MyError::NotFound(m)) => assert_eq!(m, "Course id not found"),
        _ => panic!("no row was deleted"),
    }
    assert_eq!(
        deleted_course(1).ok(),
        Some("Delete PgQueryResult { rows_affected: 1 } record".to_string())
    );
    assert_eq!(
        deleted_course(12).ok(),
        Some("Delete PgQueryResult { rows_affected: 12 } record".to_string())
    );
}
