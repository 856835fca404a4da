//! The replies of the small web examples: greetings, a visit counter, a
//! bounded request body, and error types with their HTTP status.

use vstd::prelude::*;

use crate::text::{decimal_text, i64_chars, push_chars, push_str, signed_text, string_of, u64_chars};

verus! {

/// `Hello <app_name>!`, the reply of the shared-state example.
pub fn data(app_name: &str) -> (r: String)
    ensures
        r@ == seq!['H', 'e', 'l', 'l', 'o', ' '] + app_name@ + seq!['!'],
{
    let a = ['H', 'e', 'l', 'l', 'o', ' '];
    let mut r = string_of(&a);
    push_str(&mut r, app_name);
    let b = ['!'];
    push_chars(&mut r, &b);
    assert(a@ =~= seq!['H', 'e', 'l', 'l', 'o', ' '] && b@ =~= seq!['!']);
    r
}

/// Counts a visit and replies `Counter: <count>` with the new count.
pub fn counter(count: &mut i32) -> (r: String)
    requires
        *old(count) < i32::MAX,
    ensures
        *final(count) == *old(count) + 1,
        r@ == seq!['C', 'o', 'u', 'n', 't', 'e', 'r', ':', ' '] + signed_text(*old(count) + 1),
{
    *count = *count + 1;
    let a = ['C', 'o', 'u', 'n', 't', 'e', 'r', ':', ' '];
    let mut r = string_of(&a);
    let d = i64_chars(*count as i64);
    push_chars(&mut r, d.as_slice());
    assert(a@ =~= seq!['C', 'o', 'u', 'n', 't', 'e', 'r', ':', ' ']);
    r
}

/// `<opening><name>!`.
fn greet(opening: &[char], name: &str) -> (r: String)
    ensures
        r@ == opening@ + name@ + seq!['!'],
{
    let mut r = string_of(opening);
    push_str(&mut r, name);
    let b = ['!'];
    push_chars(&mut r, &b);
    assert(b@ =~= seq!['!']);
    r
}

/// `Welcome <username>!`, the reply to a JSON greeting.
pub fn welcome(username: &str) -> (r: String)
    ensures
        r@ == seq!['W', 'e', 'l', 'c', 'o', 'm', 'e', ' '] + username@ + seq!['!'],
{
    let a = ['W', 'e', 'l', 'c', 'o', 'm', 'e', ' '];
    assert(a@ =~= seq!['W', 'e', 'l', 'c', 'o', 'm', 'e', ' ']);
    greet(&a, username)
}

/// `Welcom <username>!`, the reply of the query and form examples.
pub fn welcom(username: &str) -> (r: String)
    ensures
        r@ == seq!['W', 'e', 'l', 'c', 'o', 'm', ' '] + username@ + seq!['!'],
{
    let a = ['W', 'e', 'l', 'c', 'o', 'm', ' '];
    assert(a@ =~= seq!['W', 'e', 'l', 'c', 'o', 'm', ' ']);
    greet(&a, username)
}

/// `Welcom <friend>, user_id <user_id>!`, the reply of the path examples.
pub fn welcome_friend(friend: &str, user_id: &str) -> (r: String)
    ensures
        r@ == seq!['W', 'e', 'l', 'c', 'o', 'm', ' '] + friend@ + seq![
            ',',
            ' ',
            'u',
            's',
            'e',
            'r',
            '_',
            'i',
            'd',
            ' ',
        ] + user_id@ + seq!['!'],
{
    let a = ['W', 'e', 'l', 'c', 'o', 'm', ' '];
    let b = [',', ' ', 'u', 's', 'e', 'r', '_', 'i', 'd', ' '];
    let c = ['!'];
    let mut r = string_of(&a);
    push_str(&mut r, friend);
    push_chars(&mut r, &b);
    push_str(&mut r, user_id);
    push_chars(&mut r, &c);
    assert(a@ =~= seq!['W', 'e', 'l', 'c', 'o', 'm', ' ']);
    assert(b@ =~= seq![',', ' ', 'u', 's', 'e', 'r', '_', 'i', 'd', ' ']);
    assert(c@ =~= seq!['!']);
    r
}

/// The same reply with a numeric user id.
pub fn user_friend(friend: &str, user_id: u32) -> (r: String)
    ensures
        r@ == seq!['W', 'e', 'l', 'c', 'o', 'm', ' '] + friend@ + seq![
            ',',
            ' ',
            'u',
            's',
            'e',
            'r',
            '_',
            'i',
            'd',
            ' ',
        ] + decimal_text(user_id as nat) + seq!['!'],
{
    let d = u64_chars(user_id as u64);
    let id = string_of(d.as_slice());
    welcome_friend(friend, id.as_str())
}

/// `<first> <second> <id> <username>`, the reply of the path-and-JSON
/// example.
pub fn form_index(first: &str, second: &str, id: u32, username: &str) -> (r: String)
    ensures
        r@ == first@ + seq![' '] + second@ + seq![' '] + decimal_text(id as nat) + seq![' ']
            + username@,
{
    let sp = [' '];
    assert(sp@ =~= seq![' ']);
    let mut r = string_of(crate::text::chars_of(first).as_slice());
    push_chars(&mut r, &sp);
    push_str(&mut r, second);
    push_chars(&mut r, &sp);
    let d = u64_chars(id as u64);
    push_chars(&mut r, d.as_slice());
    push_chars(&mut r, &sp);
    push_str(&mut r, username);
    r
}

/// The largest request body held in memory: 256 KiB.
pub open spec fn max_payload() -> nat {
    262144
}

/// A request body that grew past [`max_payload`].
#[derive(Debug, PartialEq, Eq, Structural, Clone, Copy)]
pub struct PayloadTooLarge;

/// Adds a chunk of the request body, unless the body would then exceed the
/// limit; the body is then left as it was.
pub fn append_chunk(body: &mut Vec<u8>, chunk: &[u8]) -> (r: Result<(), PayloadTooLarge>)
    ensures
        old(body)@.len() + chunk@.len() > max_payload() ==> r is Err && final(body)@ == old(body)@,
        old(body)@.len() + chunk@.len() <= max_payload() ==> r is Ok && final(body)@ == old(body)@
            + chunk@,
{
    if chunk.len() > 262144 || body.len() > 262144 - chunk.len() {
        return Err(PayloadTooLarge);
    }
    let mut i: usize = 0;
    while i < chunk.len()
        invariant
            i <= chunk@.len(),
            body@ == old(body)@ + chunk@.take(i as int),
        decreases chunk@.len() - i,
    {
        body.push(chunk[i]);
        assert(chunk@.take(i + 1) == chunk@.take(i as int).push(chunk@[i as int]));
        i += 1;
    }
    assert(chunk@.take(chunk@.len() as int) == chunk@);
    Ok(())
}

/// An error with a fixed name (`my error: <name>`).
#[derive(Debug)]
pub struct MyError {
    pub name: &'static str,
}

impl MyError {
    /// 500, the default status of an error response.
    pub fn status_code(&self) -> (r: u16)
        ensures
            r == 500,
    {
        500
    }

    /// `my error: <name>`.
    pub fn message(&self) -> (r: String)
        ensures
            r@ == seq!['m', 'y', ' ', 'e', 'r', 'r', 'o', 'r', ':', ' '] + self.name@,
    {
        let a = ['m', 'y', ' ', 'e', 'r', 'r', 'o', 'r', ':', ' '];
        let mut r = string_of(&a);
        push_str(&mut r, self.name);
        assert(a@ =~= seq!['m', 'y', ' ', 'e', 'r', 'r', 'o', 'r', ':', ' ']);
        r
    }
}

/// Errors with their own status codes.
#[derive(Debug, PartialEq, Eq, Structural, Clone, Copy)]
pub enum MyError2 {
    InternalError,
    BadClientData,
    Timeout,
}

impl MyError2 {
    /// 500, 400 and 504.
    pub fn status_code(&self) -> (r: u16)
        ensures
            r == (match self {
                MyError2::InternalError => 500u16,
                MyError2::BadClientData => 400u16,
                MyError2::Timeout => 504u16,
            }),
    {
        match self {
            MyError2::InternalError => 500,
            MyError2::BadClientData => 400,
            MyError2::Timeout => 504,
        }
    }

    /// `internal error`, `bad request` and `Timeout`.
    pub fn message(&self) -> (r: String)
        ensures
            r@ == (match self {
                MyError2::InternalError => seq![
                    'i',
                    'n',
                    't',
                    'e',
                    'r',
                    'n',
                    'a',
                    'l',
                    ' ',
                    'e',
                    'r',
                    'r',
                    'o',
                    'r',
                ],
                MyError2::BadClientData => seq![
                    'b',
                    'a',
                    'd',
                    ' ',
                    'r',
                    'e',
                    'q',
                    'u',
                    'e',
                    's',
                    't',
                ],
                MyError2::Timeout => seq!['T', 'i', 'm', 'e', 'o', 'u', 't'],
            }),
    {
        match self {
            MyError2::InternalError => {
                let a = ['i', 'n', 't', 'e', 'r', 'n', 'a', 'l', ' ', 'e', 'r', 'r', 'o', 'r'];
                assert(a@ =~= seq!['i', 'n', 't', 'e', 'r', 'n', 'a', 'l', ' ', 'e', 'r', 'r', 'o', 'r']);
                string_of(&a)
            },
            MyError2::BadClientData => {
                let a = ['b', 'a', 'd', ' ', 'r', 'e', 'q', 'u', 'e', 's', 't'];
                assert(a@ =~= seq!['b', 'a', 'd', ' ', 'r', 'e', 'q', 'u', 'e', 's', 't']);
                string_of(&a)
            },
            MyError2::Timeout => {
                let a = ['T', 'i', 'm', 'e', 'o', 'u', 't'];
                assert(a@ =~= seq!['T', 'i', 'm', 'e', 'o', 'u', 't']);
                string_of(&a)
            },
        }
    }
}

/// Errors shown to users.
#[derive(Debug, PartialEq, Eq)]
pub enum UserError {
    ValidationError { field: String },
    InternalError,
}

/// The text shown for an internal error.
pub open spec fn internal_error_text() -> Seq<char> {
    seq![
        'A', 'n', ' ', 'i', 'n', 't', 'e', 'r', 'n', 'a', 'l', ' ', 'e', 'r', 'r', 'o', 'r', ' ', 'o',
        'c', 'c', 'u', 'r', 'r', 'e', 'd', '.', ' ', 'P', 'l', 'e', 'a', 's', 'e', ' ', 't', 'r', 'y',
        ' ', 'a', 'g', 'a', 'i', 'n', ' ', 'l', 'a', 't', 'e', 'r', '.',
    ]
}

/// The text shown for a validation error, before the field's name.
pub open spec fn validation_text() -> Seq<char> {
    seq![
        'v', 'a', 'l', 'i', 'd', 'a', 't', 'i', 'o', 'n', ' ', 'e', 'r', 'r', 'o', 'r', ' ', 'o', 'n',
        ' ', 'f', 'i', 'e', 'l', 'd', ' ',
    ]
}

impl UserError {
    /// 400 for a validation error, 500 for an internal one.
    pub fn status_code(&self) -> (r: u16)
        ensures
            r == (match self {
                UserError::ValidationError { .. } => 400u16,
                UserError::InternalError => 500u16,
            }),
    {
        match self {
            UserError::ValidationError { .. } => 400,
            UserError::InternalError => 500,
        }
    }

    /// `validation error on field <field>`, or the internal error's text,
    /// which hides the details.
    pub fn message(&self) -> (r: String)
        ensures
            r@ == (match self {
                UserError::ValidationError { field } => validation_text() + field@,
                UserError::InternalError => internal_error_text(),
            }),
    {
        match self {
            UserError::ValidationError { field } => {
                let a = [
                    'v', 'a', 'l', 'i', 'd', 'a', 't', 'i', 'o', 'n', ' ', 'e', 'r', 'r', 'o', 'r', ' ',
                    'o', 'n', ' ', 'f', 'i', 'e', 'l', 'd', ' ',
                ];
                assert(a@ =~= validation_text());
                let mut r = string_of(&a);
                push_str(&mut r, field.as_str());
                r
            },
            UserError::InternalError => {
                let a = [
                    'A', 'n', ' ', 'i', 'n', 't', 'e', 'r', 'n', 'a', 'l', ' ', 'e', 'r', 'r', 'o', 'r',
                    ' ', 'o', 'c', 'c', 'u', 'r', 'r', 'e', 'd', '.', ' ', 'P', 'l', 'e', 'a', 's', 'e',
                    ' ', 't', 'r', 'y', ' ', 'a', 'g', 'a', 'i', 'n', ' ', 'l', 'a', 't', 'e', 'r', '.',
                ];
                assert(a@ =~= internal_error_text());
                string_of(&a)
            },
        }
    }
}

/// The answer of the user-error example once the fallible step has run: a
/// failure is reported as an internal error, hiding its details; success is
/// `success`.
pub fn user_err<E>(outcome: Result<(), E>) -> (r: Result<&'static str, UserError>)
    ensures
        outcome is Err ==> r == Err::<&'static str, UserError>(UserError::InternalError),
        outcome is Ok ==> (r matches Ok(s) && s@ == seq!['s', 'u', 'c', 'c', 'e', 's', 's']),
{
    match outcome {
        Err(_) => Err(UserError::InternalError),
        Ok(()) => {
            let s = "success";
            proof {
                reveal_strlit("success");
            }
            Ok(s)
        },
    }
}

/// The value of the restartable operation in the `select!` example: none
/// without an input, else `hello`.
pub fn action(input: Option<i32>) -> (r: Option<String>)
    ensures
        input is None ==> r is None,
        input is Some ==> (r matches Some(s) && s@ == seq!['h', 'e', 'l', 'l', 'o']),
{
    match input {
        None => None,
        Some(_) => {
            let a = ['h', 'e', 'l', 'l', 'o'];
            assert(a@ =~= seq!['h', 'e', 'l', 'l', 'o']);
            Some(string_of(&a))
        },
    }
}

/// The published messages that the subscriber keeps: those of exactly one
/// byte.
pub fn keep_message(content: &[u8]) -> (r: bool)
    ensures
        r == (content@.len() == 1),
{
    content.len() == 1
}

} // verus!
