//! The canonical textual form of the store, used for persistence: every
//! number is eight upper-case hexadecimal digits, every string is its length
//! followed by its characters, every list is its length followed by its
//! items. Encoding and decoding are verified against the same specification
//! functions, and decoding an encoded store is proved to give the store back
//! (`lemma_enc_dec_db`).

use vstd::prelude::*;
use vstd::slice::slice_subrange;

use crate::db::{
    students_view, teachers_view, DataBase, DataBaseV, Student, StudentEntry, StudentEntryV,
    StudentV, Teacher, TeacherEntry, TeacherEntryV, TeacherV,
};

verus! {

/// A string fits the format when its length fits the eight-digit prefix.
pub open spec fn str_encodable(s: Seq<char>) -> bool {
    s.len() < 0x100000000
}

/// A student entry fits the format.
pub open spec fn student_encodable(e: StudentEntryV) -> bool {
    &&& str_encodable(e.name)
    &&& str_encodable(e.student.password)
    &&& e.student.grades.len() < 0x100000000
}

/// A teacher entry fits the format.
pub open spec fn teacher_encodable(e: TeacherEntryV) -> bool {
    &&& str_encodable(e.name)
    &&& str_encodable(e.teacher.name)
    &&& str_encodable(e.teacher.password)
}

/// The whole store fits the format.
pub open spec fn db_encodable(d: DataBaseV) -> bool {
    &&& d.students.len() < 0x100000000
    &&& d.teachers.len() < 0x100000000
    &&& forall|i: int| 0 <= i < d.students.len() ==> student_encodable(#[trigger] d.students[i])
    &&& forall|i: int| 0 <= i < d.teachers.len() ==> teacher_encodable(#[trigger] d.teachers[i])
}

/// The upper-case hexadecimal digit of a nibble.
pub open spec fn hex_char(k: u32) -> char {
    if k == 0 {
        '0'
    } else if k == 1 {
        '1'
    } else if k == 2 {
        '2'
    } else if k == 3 {
        '3'
    } else if k == 4 {
        '4'
    } else if k == 5 {
        '5'
    } else if k == 6 {
        '6'
    } else if k == 7 {
        '7'
    } else if k == 8 {
        '8'
    } else if k == 9 {
        '9'
    } else if k == 10 {
        'A'
    } else if k == 11 {
        'B'
    } else if k == 12 {
        'C'
    } else if k == 13 {
        'D'
    } else if k == 14 {
        'E'
    } else {
        'F'
    }
}

/// The nibble of an upper-case hexadecimal digit; 16 marks a non-digit.
pub open spec fn hex_val(c: char) -> u32 {
    if c == '0' {
        0
    } else if c == '1' {
        1
    } else if c == '2' {
        2
    } else if c == '3' {
        3
    } else if c == '4' {
        4
    } else if c == '5' {
        5
    } else if c == '6' {
        6
    } else if c == '7' {
        7
    } else if c == '8' {
        8
    } else if c == '9' {
        9
    } else if c == 'A' {
        10
    } else if c == 'B' {
        11
    } else if c == 'C' {
        12
    } else if c == 'D' {
        13
    } else if c == 'E' {
        14
    } else if c == 'F' {
        15
    } else {
        16
    }
}

/// A number as eight hexadecimal digits, most significant nibble first.
pub open spec fn enc_u32(n: u32) -> Seq<char> {
    seq![
        hex_char((n >> 28) & 0xF),
        hex_char((n >> 24) & 0xF),
        hex_char((n >> 20) & 0xF),
        hex_char((n >> 16) & 0xF),
        hex_char((n >> 12) & 0xF),
        hex_char((n >> 8) & 0xF),
        hex_char((n >> 4) & 0xF),
        hex_char(n & 0xF),
    ]
}

/// Read eight hexadecimal digits at position `i`.
pub open spec fn dec_u32(s: Seq<char>, i: int) -> Option<u32> {
    if 0 <= i && i + 8 <= s.len() && hex_val(s[i]) < 16 && hex_val(s[i + 1]) < 16 && hex_val(
        s[i + 2],
    ) < 16 && hex_val(s[i + 3]) < 16 && hex_val(s[i + 4]) < 16 && hex_val(s[i + 5]) < 16 && hex_val(
        s[i + 6],
    ) < 16 && hex_val(s[i + 7]) < 16 {
        Some(
            hex_val(s[i]) << 28 | hex_val(s[i + 1]) << 24 | hex_val(s[i + 2]) << 20 | hex_val(
                s[i + 3],
            ) << 16 | hex_val(s[i + 4]) << 12 | hex_val(s[i + 5]) << 8 | hex_val(s[i + 6]) << 4
                | hex_val(s[i + 7]),
        )
    } else {
        None
    }
}

/// A string as its length followed by its characters.
pub open spec fn enc_str(x: Seq<char>) -> Seq<char> {
    enc_u32(x.len() as u32) + x
}

/// Read a length-prefixed string at position `i`.
pub open spec fn dec_str(s: Seq<char>, i: int) -> Option<(Seq<char>, int)> {
    match dec_u32(s, i) {
        None => None,
        Some(n) => if i + 8 + n <= s.len() {
            Some((s.subrange(i + 8, i + 8 + n), i + 8 + n))
        } else {
            None
        },
    }
}

/// A grade list's items, each as eight digits.
pub open spec fn enc_grades(g: Seq<u32>) -> Seq<char>
    decreases g.len(),
{
    if g.len() == 0 {
        Seq::empty()
    } else {
        enc_u32(g[0]) + enc_grades(g.drop_first())
    }
}

/// Read `count` grades at position `i`.
pub open spec fn dec_grades(s: Seq<char>, i: int, count: int) -> Option<(Seq<u32>, int)>
    decreases count,
{
    if count <= 0 {
        Some((Seq::empty(), i))
    } else {
        match dec_u32(s, i) {
            None => None,
            Some(v) => match dec_grades(s, i + 8, count - 1) {
                None => None,
                Some((rest, j)) => Some((seq![v] + rest, j)),
            },
        }
    }
}

/// A student entry: identity, credential, grade count, grades.
pub open spec fn enc_student(e: StudentEntryV) -> Seq<char> {
    enc_str(e.name) + enc_str(e.student.password) + enc_u32(e.student.grades.len() as u32)
        + enc_grades(e.student.grades)
}

/// Read one student entry at position `i`.
pub open spec fn dec_student(s: Seq<char>, i: int) -> Option<(StudentEntryV, int)> {
    match dec_str(s, i) {
        None => None,
        Some((name, j)) => match dec_str(s, j) {
            None => None,
            Some((pw, j2)) => match dec_u32(s, j2) {
                None => None,
                Some(cnt) => match dec_grades(s, j2 + 8, cnt as int) {
                    None => None,
                    Some((g, j3)) => Some(
                        (StudentEntryV { name, student: StudentV { grades: g, password: pw } }, j3),
                    ),
                },
            },
        },
    }
}

/// The student entries, one after the other.
pub open spec fn enc_students(es: Seq<StudentEntryV>) -> Seq<char>
    decreases es.len(),
{
    if es.len() == 0 {
        Seq::empty()
    } else {
        enc_student(es[0]) + enc_students(es.drop_first())
    }
}

/// Read `count` student entries at position `i`.
pub open spec fn dec_students(s: Seq<char>, i: int, count: int) -> Option<
    (Seq<StudentEntryV>, int),
>
    decreases count,
{
    if count <= 0 {
        Some((Seq::empty(), i))
    } else {
        match dec_student(s, i) {
            None => None,
            Some((e, j)) => match dec_students(s, j, count - 1) {
                None => None,
                Some((rest, j2)) => Some((seq![e] + rest, j2)),
            },
        }
    }
}

/// A teacher entry: identity, display name, credential.
pub open spec fn enc_teacher(e: TeacherEntryV) -> Seq<char> {
    enc_str(e.name) + enc_str(e.teacher.name) + enc_str(e.teacher.password)
}

/// Read one teacher entry at position `i`.
pub open spec fn dec_teacher(s: Seq<char>, i: int) -> Option<(TeacherEntryV, int)> {
    match dec_str(s, i) {
        None => None,
        Some((name, j)) => match dec_str(s, j) {
            None => None,
            Some((dn, j2)) => match dec_str(s, j2) {
                None => None,
                Some((pw, j3)) => Some(
                    (TeacherEntryV { name, teacher: TeacherV { name: dn, password: pw } }, j3),
                ),
            },
        },
    }
}

/// The teacher entries, one after the other.
pub open spec fn enc_teachers(es: Seq<TeacherEntryV>) -> Seq<char>
    decreases es.len(),
{
    if es.len() == 0 {
        Seq::empty()
    } else {
        enc_teacher(es[0]) + enc_teachers(es.drop_first())
    }
}

/// Read `count` teacher entries at position `i`.
pub open spec fn dec_teachers(s: Seq<char>, i: int, count: int) -> Option<
    (Seq<TeacherEntryV>, int),
>
    decreases count,
{
    if count <= 0 {
        Some((Seq::empty(), i))
    } else {
        match dec_teacher(s, i) {
            None => None,
            Some((e, j)) => match dec_teachers(s, j, count - 1) {
                None => None,
                Some((rest, j2)) => Some((seq![e] + rest, j2)),
            },
        }
    }
}

/// The whole store: student count, students, teacher count, teachers.
pub open spec fn enc_db(d: DataBaseV) -> Seq<char> {
    enc_u32(d.students.len() as u32) + enc_students(d.students) + enc_u32(d.teachers.len() as u32)
        + enc_teachers(d.teachers)
}

/// Read a whole store: the document must be consumed exactly.
pub open spec fn dec_db(s: Seq<char>) -> Option<DataBaseV> {
    match dec_u32(s, 0) {
        None => None,
        Some(ns) => match dec_students(s, 8, ns as int) {
            None => None,
            Some((students, j)) => match dec_u32(s, j) {
                None => None,
                Some(nt) => match dec_teachers(s, j + 8, nt as int) {
                    None => None,
                    Some((teachers, j2)) => if j2 == s.len() {
                        Some(DataBaseV { students, teachers })
                    } else {
                        None
                    },
                },
            },
        },
    }
}

/// Reading eight digits where a number was written gives the number back.
proof fn lemma_dec_enc_u32(s: Seq<char>, i: int, n: u32)
    requires
        0 <= i,
        i + 8 <= s.len(),
        forall|k: int| 0 <= k < 8 ==> s[i + k] == enc_u32(n)[k],
    ensures
        dec_u32(s, i) == Some(n),
{
    assert((n >> 28) & 0xF < 16 && (n >> 24) & 0xF < 16 && (n >> 20) & 0xF < 16 && (n >> 16) & 0xF
        < 16 && (n >> 12) & 0xF < 16 && (n >> 8) & 0xF < 16 && (n >> 4) & 0xF < 16 && n & 0xF < 16)
        by (bit_vector);
    assert(s[i + 0] == enc_u32(n)[0] && s[i + 1] == enc_u32(n)[1] && s[i + 2] == enc_u32(n)[2] && s[
        i + 3] == enc_u32(n)[3] && s[i + 4] == enc_u32(n)[4] && s[i + 5] == enc_u32(n)[5] && s[i
        + 6] == enc_u32(n)[6] && s[i + 7] == enc_u32(n)[7]);
    assert(((n >> 28) & 0xF) << 28 | ((n >> 24) & 0xF) << 24 | ((n >> 20) & 0xF) << 20 | ((n >> 16)
        & 0xF) << 16 | ((n >> 12) & 0xF) << 12 | ((n >> 8) & 0xF) << 8 | ((n >> 4) & 0xF) << 4 | (n
        & 0xF) == n) by (bit_vector);
}

/// Reading a string where one was written gives it back.
proof fn lemma_dec_enc_str(s: Seq<char>, i: int, x: Seq<char>)
    requires
        0 <= i,
        str_encodable(x),
        i + enc_str(x).len() <= s.len(),
        forall|k: int| 0 <= k < enc_str(x).len() ==> s[i + k] == enc_str(x)[k],
    ensures
        dec_str(s, i) == Some((x, i + enc_str(x).len())),
{
    let n = x.len() as u32;
    assert forall|k: int| 0 <= k < 8 implies s[i + k] == enc_u32(n)[k] by {
        assert(enc_str(x)[k] == enc_u32(n)[k]);
    }
    lemma_dec_enc_u32(s, i, n);
    assert(s.subrange(i + 8, i + 8 + n) =~= x) by {
        assert forall|k: int| 0 <= k < x.len() implies s.subrange(i + 8, i + 8 + n)[k] == x[k] by {
            assert(s[i + (8 + k)] == enc_str(x)[8 + k]);
            assert(enc_str(x)[8 + k] == x[k]);
        }
    }
}

/// Reading a grade list where one was written gives it back.
proof fn lemma_dec_enc_grades(s: Seq<char>, i: int, g: Seq<u32>)
    requires
        0 <= i,
        i + enc_grades(g).len() <= s.len(),
        forall|k: int| 0 <= k < enc_grades(g).len() ==> s[i + k] == enc_grades(g)[k],
    ensures
        dec_grades(s, i, g.len() as int) == Some((g, i + enc_grades(g).len())),
    decreases g.len(),
{
    if g.len() == 0 {
        assert(g =~= Seq::<u32>::empty());
    } else {
        let rest = g.drop_first();
        assert(enc_grades(g) == enc_u32(g[0]) + enc_grades(rest));
        assert forall|k: int| 0 <= k < 8 implies s[i + k] == enc_u32(g[0])[k] by {
            assert(enc_grades(g)[k] == enc_u32(g[0])[k]);
        }
        lemma_dec_enc_u32(s, i, g[0]);
        assert forall|k: int| 0 <= k < enc_grades(rest).len() implies s[i + 8 + k] == enc_grades(
            rest,
        )[k] by {
            assert(s[i + (8 + k)] == enc_grades(g)[8 + k]);
            assert(enc_grades(g)[8 + k] == enc_grades(rest)[k]);
        }
        lemma_dec_enc_grades(s, i + 8, rest);
        assert(seq![g[0]] + rest =~= g);
    }
}

/// Reading a student entry where one was written gives it back.
proof fn lemma_dec_enc_student(s: Seq<char>, i: int, e: StudentEntryV)
    requires
        0 <= i,
        student_encodable(e),
        i + enc_student(e).len() <= s.len(),
        forall|k: int| 0 <= k < enc_student(e).len() ==> s[i + k] == enc_student(e)[k],
    ensures
        dec_student(s, i) == Some((e, i + enc_student(e).len())),
{
    let a = enc_str(e.name);
    let b = enc_str(e.student.password);
    let c = enc_u32(e.student.grades.len() as u32);
    let d = enc_grades(e.student.grades);
    assert(enc_student(e) == a + b + c + d);
    assert forall|k: int| 0 <= k < a.len() implies s[i + k] == a[k] by {
        assert(enc_student(e)[k] == a[k]);
    }
    lemma_dec_enc_str(s, i, e.name);
    let j = i + a.len();
    assert forall|k: int| 0 <= k < b.len() implies s[j + k] == b[k] by {
        assert(s[i + (a.len() + k)] == enc_student(e)[a.len() + k]);
        assert(enc_student(e)[a.len() + k] == b[k]);
    }
    lemma_dec_enc_str(s, j, e.student.password);
    let j2 = j + b.len();
    assert forall|k: int| 0 <= k < 8 implies s[j2 + k] == c[k] by {
        assert(s[i + (a.len() + b.len() + k)] == enc_student(e)[a.len() + b.len() + k]);
        assert(enc_student(e)[a.len() + b.len() + k] == c[k]);
    }
    lemma_dec_enc_u32(s, j2, e.student.grades.len() as u32);
    let j3 = j2 + 8;
    assert forall|k: int| 0 <= k < d.len() implies s[j3 + k] == d[k] by {
        assert(s[i + (a.len() + b.len() + 8 + k)] == enc_student(e)[a.len() + b.len() + 8 + k]);
        assert(enc_student(e)[a.len() + b.len() + 8 + k] == d[k]);
    }
    lemma_dec_enc_grades(s, j3, e.student.grades);
    assert(dec_student(s, i) == Some((e, i + enc_student(e).len())));
}

/// Reading a student list where one was written gives it back.
proof fn lemma_dec_enc_students(s: Seq<char>, i: int, es: Seq<StudentEntryV>)
    requires
        0 <= i,
        forall|k: int| 0 <= k < es.len() ==> student_encodable(#[trigger] es[k]),
        i + enc_students(es).len() <= s.len(),
        forall|k: int| 0 <= k < enc_students(es).len() ==> s[i + k] == enc_students(es)[k],
    ensures
        dec_students(s, i, es.len() as int) == Some((es, i + enc_students(es).len())),
    decreases es.len(),
{
    if es.len() == 0 {
        assert(es =~= Seq::<StudentEntryV>::empty());
    } else {
        let rest = es.drop_first();
        assert(enc_students(es) == enc_student(es[0]) + enc_students(rest));
        assert forall|k: int| 0 <= k < enc_student(es[0]).len() implies s[i + k] == enc_student(
            es[0],
        )[k] by {
            assert(enc_students(es)[k] == enc_student(es[0])[k]);
        }
        lemma_dec_enc_student(s, i, es[0]);
        let j = i + enc_student(es[0]).len();
        assert forall|k: int| 0 <= k < enc_students(rest).len() implies s[j + k] == enc_students(
            rest,
        )[k] by {
            assert(s[i + (enc_student(es[0]).len() + k)] == enc_students(es)[enc_student(
                es[0],
            ).len() + k]);
            assert(enc_students(es)[enc_student(es[0]).len() + k] == enc_students(rest)[k]);
        }
        assert forall|k: int| 0 <= k < rest.len() implies student_encodable(#[trigger] rest[k]) by {
            assert(rest[k] == es[k + 1]);
        }
        lemma_dec_enc_students(s, j, rest);
        assert(seq![es[0]] + rest =~= es);
    }
}

/// Reading a teacher entry where one was written gives it back.
proof fn lemma_dec_enc_teacher(s: Seq<char>, i: int, e: TeacherEntryV)
    requires
        0 <= i,
        teacher_encodable(e),
        i + enc_teacher(e).len() <= s.len(),
        forall|k: int| 0 <= k < enc_teacher(e).len() ==> s[i + k] == enc_teacher(e)[k],
    ensures
        dec_teacher(s, i) == Some((e, i + enc_teacher(e).len())),
{
    let a = enc_str(e.name);
    let b = enc_str(e.teacher.name);
    let c = enc_str(e.teacher.password);
    assert(enc_teacher(e) == a + b + c);
    assert forall|k: int| 0 <= k < a.len() implies s[i + k] == a[k] by {
        assert(enc_teacher(e)[k] == a[k]);
    }
    lemma_dec_enc_str(s, i, e.name);
    let j = i + a.len();
    assert forall|k: int| 0 <= k < b.len() implies s[j + k] == b[k] by {
        assert(s[i + (a.len() + k)] == enc_teacher(e)[a.len() + k]);
        assert(enc_teacher(e)[a.len() + k] == b[k]);
    }
    lemma_dec_enc_str(s, j, e.teacher.name);
    let j2 = j + b.len();
    assert forall|k: int| 0 <= k < c.len() implies s[j2 + k] == c[k] by {
        assert(s[i + (a.len() + b.len() + k)] == enc_teacher(e)[a.len() + b.len() + k]);
        assert(enc_teacher(e)[a.len() + b.len() + k] == c[k]);
    }
    lemma_dec_enc_str(s, j2, e.teacher.password);
    assert(dec_teacher(s, i) == Some((e, i + enc_teacher(e).len())));
}

/// Reading a teacher list where one was written gives it back.
proof fn lemma_dec_enc_teachers(s: Seq<char>, i: int, es: Seq<TeacherEntryV>)
    requires
        0 <= i,
        forall|k: int| 0 <= k < es.len() ==> teacher_encodable(#[trigger] es[k]),
        i + enc_teachers(es).len() <= s.len(),
        forall|k: int| 0 <= k < enc_teachers(es).len() ==> s[i + k] == enc_teachers(es)[k],
    ensures
        dec_teachers(s, i, es.len() as int) == Some((es, i + enc_teachers(es).len())),
    decreases es.len(),
{
    if es.len() == 0 {
        assert(es =~= Seq::<TeacherEntryV>::empty());
    } else {
        let rest = es.drop_first();
        assert(enc_teachers(es) == enc_teacher(es[0]) + enc_teachers(rest));
        assert forall|k: int| 0 <= k < enc_teacher(es[0]).len() implies s[i + k] == enc_teacher(
            es[0],
        )[k] by {
            assert(enc_teachers(es)[k] == enc_teacher(es[0])[k]);
        }
        lemma_dec_enc_teacher(s, i, es[0]);
        let j = i + enc_teacher(es[0]).len();
        assert forall|k: int| 0 <= k < enc_teachers(rest).len() implies s[j + k] == enc_teachers(
            rest,
        )[k] by {
            assert(s[i + (enc_teacher(es[0]).len() + k)] == enc_teachers(es)[enc_teacher(
                es[0],
            ).len() + k]);
            assert(enc_teachers(es)[enc_teacher(es[0]).len() + k] == enc_teachers(rest)[k]);
        }
        assert forall|k: int| 0 <= k < rest.len() implies teacher_encodable(#[trigger] rest[k]) by {
            assert(rest[k] == es[k + 1]);
        }
        lemma_dec_enc_teachers(s, j, rest);
        assert(seq![es[0]] + rest =~= es);
    }
}

/// Round-trip law: decoding an encoded store gives the store back, for every
/// store that fits the format.
#[verifier::rlimit(100)]
#[verifier::spinoff_prover]
pub proof fn lemma_enc_dec_db(d: DataBaseV)
    requires
        db_encodable(d),
    ensures
        dec_db(enc_db(d)) == Some(d),
{
    let s = enc_db(d);
    let a = enc_u32(d.students.len() as u32);
    let b = enc_students(d.students);
    let c = enc_u32(d.teachers.len() as u32);
    let e = enc_teachers(d.teachers);
    assert(s == a + b + c + e);
    assert forall|k: int| 0 <= k < 8 implies s[0 + k] == a[k] by {
        assert(s[k] == a[k]);
    }
    lemma_dec_enc_u32(s, 0, d.students.len() as u32);
    assert forall|k: int| 0 <= k < b.len() implies s[8 + k] == b[k] by {
        assert(s[8 + k] == (a + b + c + e)[8 + k]);
    }
    lemma_dec_enc_students(s, 8, d.students);
    assert(dec_students(s, 8, d.students.len() as int) == Some((d.students, 8 + b.len() as int)));
    let j: int = 8 + b.len() as int;
    assert forall|k: int| 0 <= k < 8 implies s[j + k] == c[k] by {
        assert(s[8 + b.len() + k] == (a + b + c + e)[8 + b.len() + k]);
    }
    lemma_dec_enc_u32(s, j, d.teachers.len() as u32);
    let j2 = j + 8;
    assert forall|k: int| 0 <= k < e.len() implies s[j2 + k] == e[k] by {
        assert(s[8 + b.len() + 8 + k] == (a + b + c + e)[8 + b.len() + 8 + k]);
    }
    lemma_dec_enc_teachers(s, j2, d.teachers);
    assert(dec_teachers(s, j2, d.teachers.len() as int) == Some((d.teachers, j2 + e.len() as int)));
    assert(j2 + e.len() == s.len());
    assert((d.students.len() as u32) as int == d.students.len() as int);
    assert((d.teachers.len() as u32) as int == d.teachers.len() as int);
    assert(dec_db(s) == Some(d));
}

/// The hexadecimal digit of a nibble (executable form of `hex_char`).
fn hex_char_of(k: u32) -> (c: char)
    ensures
        c == hex_char(k),
{
    if k == 0 {
        '0'
    } else if k == 1 {
        '1'
    } else if k == 2 {
        '2'
    } else if k == 3 {
        '3'
    } else if k == 4 {
        '4'
    } else if k == 5 {
        '5'
    } else if k == 6 {
        '6'
    } else if k == 7 {
        '7'
    } else if k == 8 {
        '8'
    } else if k == 9 {
        '9'
    } else if k == 10 {
        'A'
    } else if k == 11 {
        'B'
    } else if k == 12 {
        'C'
    } else if k == 13 {
        'D'
    } else if k == 14 {
        'E'
    } else {
        'F'
    }
}

/// The nibble of a digit (executable form of `hex_val`).
fn hex_val_of(c: char) -> (k: u32)
    ensures
        k == hex_val(c),
{
    if c == '0' {
        0
    } else if c == '1' {
        1
    } else if c == '2' {
        2
    } else if c == '3' {
        3
    } else if c == '4' {
        4
    } else if c == '5' {
        5
    } else if c == '6' {
        6
    } else if c == '7' {
        7
    } else if c == '8' {
        8
    } else if c == '9' {
        9
    } else if c == 'A' {
        10
    } else if c == 'B' {
        11
    } else if c == 'C' {
        12
    } else if c == 'D' {
        13
    } else if c == 'E' {
        14
    } else if c == 'F' {
        15
    } else {
        16
    }
}

/// Relies on `str::chars` collected into a vector: the characters of the
/// string, in order, nothing else.
#[verifier::external_body]
pub fn chars_of(s: &str) -> (r: Vec<char>)
    ensures
        r@ == s@,
{
    s.chars().collect()
}

/// Relies on String's `FromIterator` over characters: the string whose
/// characters are exactly the slice's, in order.
#[verifier::external_body]
pub fn string_from_chars(v: &[char]) -> (r: String)
    ensures
        r@ == v@,
{
    v.iter().collect()
}

fn push_u32(out: &mut Vec<char>, n: u32)
    ensures
        final(out)@ == old(out)@ + enc_u32(n),
{
    let ghost base = out@;
    out.push(hex_char_of((n >> 28) & 0xF));
    out.push(hex_char_of((n >> 24) & 0xF));
    out.push(hex_char_of((n >> 20) & 0xF));
    out.push(hex_char_of((n >> 16) & 0xF));
    out.push(hex_char_of((n >> 12) & 0xF));
    out.push(hex_char_of((n >> 8) & 0xF));
    out.push(hex_char_of((n >> 4) & 0xF));
    out.push(hex_char_of(n & 0xF));
    proof {
        assert(out@ =~= base + enc_u32(n));
    }
}

fn push_str_field(out: &mut Vec<char>, s: &String)
    requires
        str_encodable(s@),
    ensures
        final(out)@ == old(out)@ + enc_str(s@),
{
    let ghost base = out@;
    let cs = chars_of(s.as_str());
    let n = cs.len();
    push_u32(out, n as u32);
    proof {
        assert(out@ =~= base + enc_u32(s@.len() as u32) + s@.subrange(0, 0));
    }
    let mut k: usize = 0;
    while k < n
        invariant
            n == cs.len(),
            cs@ == s@,
            k <= n,
            out@ == base + enc_u32(s@.len() as u32) + s@.subrange(0, k as int),
        decreases n - k,
    {
        out.push(cs[k]);
        proof {
            assert(out@ =~= base + enc_u32(s@.len() as u32) + s@.subrange(0, k as int + 1));
        }
        k = k + 1;
    }
    proof {
        assert(s@.subrange(0, n as int) =~= s@);
    }
}

fn push_grades(out: &mut Vec<char>, g: &Vec<u32>, k: usize)
    requires
        k <= g.len(),
    ensures
        final(out)@ == old(out)@ + enc_grades(g@.subrange(k as int, g@.len() as int)),
    decreases g.len() - k,
{
    let ghost base = out@;
    if k == g.len() {
        proof {
            assert(g@.subrange(k as int, g@.len() as int) =~= Seq::<u32>::empty());
            assert(out@ =~= base + enc_grades(g@.subrange(k as int, g@.len() as int)));
        }
        return ;
    }
    push_u32(out, g[k]);
    push_grades(out, g, k + 1);
    proof {
        let rest = g@.subrange(k as int, g@.len() as int);
        assert(rest[0] == g@[k as int]);
        assert(rest.drop_first() =~= g@.subrange(k as int + 1, g@.len() as int));
        assert(out@ =~= base + enc_grades(rest));
    }
}

fn push_student(out: &mut Vec<char>, e: &StudentEntry)
    requires
        student_encodable(e@),
    ensures
        final(out)@ == old(out)@ + enc_student(e@),
{
    let ghost base = out@;
    push_str_field(out, &e.name);
    push_str_field(out, &e.student.password);
    push_u32(out, e.student.grades.len() as u32);
    push_grades(out, &e.student.grades, 0);
    proof {
        assert(e.student.grades@.subrange(0, e.student.grades@.len() as int)
            =~= e.student.grades@);
        assert(out@ =~= base + enc_student(e@));
    }
}

fn push_students(out: &mut Vec<char>, es: &Vec<StudentEntry>, k: usize)
    requires
        k <= es.len(),
        forall|i: int|
            0 <= i < es@.len() ==> student_encodable(#[trigger] students_view(es@)[i]),
    ensures
        final(out)@ == old(out)@ + enc_students(
            students_view(es@).subrange(k as int, es@.len() as int),
        ),
    decreases es.len() - k,
{
    let ghost base = out@;
    let ghost sv = students_view(es@);
    if k == es.len() {
        proof {
            assert(sv.subrange(k as int, sv.len() as int) =~= Seq::<StudentEntryV>::empty());
            assert(out@ =~= base + enc_students(sv.subrange(k as int, sv.len() as int)));
        }
        return ;
    }
    proof {
        assert(students_view(es@)[k as int] == es@[k as int]@);
    }
    push_student(out, &es[k]);
    push_students(out, es, k + 1);
    proof {
        let rest = sv.subrange(k as int, sv.len() as int);
        assert(rest[0] == sv[k as int]);
        assert(rest.drop_first() =~= sv.subrange(k as int + 1, sv.len() as int));
        assert(out@ =~= base + enc_students(rest));
    }
}

fn push_teacher(out: &mut Vec<char>, e: &TeacherEntry)
    requires
        teacher_encodable(e@),
    ensures
        final(out)@ == old(out)@ + enc_teacher(e@),
{
    let ghost base = out@;
    push_str_field(out, &e.name);
    push_str_field(out, &e.teacher.name);
    push_str_field(out, &e.teacher.password);
    proof {
        assert(out@ =~= base + enc_teacher(e@));
    }
}

fn push_teachers(out: &mut Vec<char>, es: &Vec<TeacherEntry>, k: usize)
    requires
        k <= es.len(),
        forall|i: int|
            0 <= i < es@.len() ==> teacher_encodable(#[trigger] teachers_view(es@)[i]),
    ensures
        final(out)@ == old(out)@ + enc_teachers(
            teachers_view(es@).subrange(k as int, es@.len() as int),
        ),
    decreases es.len() - k,
{
    let ghost base = out@;
    let ghost tv = teachers_view(es@);
    if k == es.len() {
        proof {
            assert(tv.subrange(k as int, tv.len() as int) =~= Seq::<TeacherEntryV>::empty());
            assert(out@ =~= base + enc_teachers(tv.subrange(k as int, tv.len() as int)));
        }
        return ;
    }
    proof {
        assert(teachers_view(es@)[k as int] == es@[k as int]@);
    }
    push_teacher(out, &es[k]);
    push_teachers(out, es, k + 1);
    proof {
        let rest = tv.subrange(k as int, tv.len() as int);
        assert(rest[0] == tv[k as int]);
        assert(rest.drop_first() =~= tv.subrange(k as int + 1, tv.len() as int));
        assert(out@ =~= base + enc_teachers(rest));
    }
}

/// Encode the whole store into its canonical textual form.
pub fn encode_db(db: &DataBase) -> (r: Vec<char>)
    requires
        db_encodable(db@),
    ensures
        r@ == enc_db(db@),
{
    let mut out: Vec<char> = Vec::new();
    push_u32(&mut out, db.students.len() as u32);
    push_students(&mut out, &db.students, 0);
    push_u32(&mut out, db.teachers.len() as u32);
    push_teachers(&mut out, &db.teachers, 0);
    proof {
        let sv = students_view(db.students@);
        let tv = teachers_view(db.teachers@);
        assert(sv.subrange(0, sv.len() as int) =~= sv);
        assert(tv.subrange(0, tv.len() as int) =~= tv);
        assert(out@ =~= enc_db(db@));
    }
    out
}

fn parse_u32(doc: &Vec<char>, i: usize) -> (r: Option<(u32, usize)>)
    ensures
        r is Some <==> dec_u32(doc@, i as int) is Some,
        r matches Some((v, j)) ==> dec_u32(doc@, i as int) == Some(v) && j == i + 8,
{
    if doc.len() < 8 || i > doc.len() - 8 {
        return None;
    }
    let v0 = hex_val_of(doc[i]);
    let v1 = hex_val_of(doc[i + 1]);
    let v2 = hex_val_of(doc[i + 2]);
    let v3 = hex_val_of(doc[i + 3]);
    let v4 = hex_val_of(doc[i + 4]);
    let v5 = hex_val_of(doc[i + 5]);
    let v6 = hex_val_of(doc[i + 6]);
    let v7 = hex_val_of(doc[i + 7]);
    if v0 >= 16 || v1 >= 16 || v2 >= 16 || v3 >= 16 || v4 >= 16 || v5 >= 16 || v6 >= 16 || v7
        >= 16 {
        return None;
    }
    Some(
        (
            v0 << 28 | v1 << 24 | v2 << 20 | v3 << 16 | v4 << 12 | v5 << 8 | v6 << 4 | v7,
            i + 8,
        ),
    )
}

fn parse_str(doc: &Vec<char>, i: usize) -> (r: Option<(String, usize)>)
    ensures
        r is Some <==> dec_str(doc@, i as int) is Some,
        r matches Some((x, j)) ==> dec_str(doc@, i as int) == Some((x@, j as int)),
{
    match parse_u32(doc, i) {
        None => None,
        Some((n, j)) => {
            let need = n as usize;
            if need > doc.len() - j {
                return None;
            }
            let x = string_from_chars(slice_subrange(doc.as_slice(), j, j + need));
            Some((x, j + need))
        },
    }
}

fn parse_grades(doc: &Vec<char>, i: usize, count: u32) -> (r: Option<(Vec<u32>, usize)>)
    ensures
        r is Some <==> dec_grades(doc@, i as int, count as int) is Some,
        r matches Some((g, j)) ==> dec_grades(doc@, i as int, count as int) == Some(
            (g@, j as int),
        ),
    decreases count,
{
    if count == 0 {
        return Some((Vec::new(), i));
    }
    match parse_u32(doc, i) {
        None => None,
        Some((v, j)) => match parse_grades(doc, j, count - 1) {
            None => None,
            Some((rest, j2)) => {
                let ghost grest = rest@;
                let mut out: Vec<u32> = Vec::new();
                out.push(v);
                let mut rest = rest;
                out.append(&mut rest);
                proof {
                    assert(out@ =~= seq![v] + grest);
                }
                Some((out, j2))
            },
        },
    }
}

fn parse_student(doc: &Vec<char>, i: usize) -> (r: Option<(StudentEntry, usize)>)
    ensures
        r is Some <==> dec_student(doc@, i as int) is Some,
        r matches Some((e, j)) ==> dec_student(doc@, i as int) == Some((e@, j as int)),
{
    match parse_str(doc, i) {
        None => None,
        Some((name, j)) => match parse_str(doc, j) {
            None => None,
            Some((pw, j2)) => match parse_u32(doc, j2) {
                None => None,
                Some((cnt, j3)) => match parse_grades(doc, j3, cnt) {
                    None => None,
                    Some((g, j4)) => Some(
                        (StudentEntry { name, student: Student { grades: g, password: pw } }, j4),
                    ),
                },
            },
        },
    }
}

fn parse_students(doc: &Vec<char>, i: usize, count: u32) -> (r: Option<
    (Vec<StudentEntry>, usize),
>)
    ensures
        r is Some <==> dec_students(doc@, i as int, count as int) is Some,
        r matches Some((v, j)) ==> dec_students(doc@, i as int, count as int) == Some(
            (students_view(v@), j as int),
        ),
    decreases count,
{
    if count == 0 {
        let out: Vec<StudentEntry> = Vec::new();
        proof {
            assert(students_view(out@) =~= Seq::<StudentEntryV>::empty());
        }
        return Some((out, i));
    }
    match parse_student(doc, i) {
        None => None,
        Some((e, j)) => match parse_students(doc, j, count - 1) {
            None => None,
            Some((rest, j2)) => {
                let ghost ev = e@;
                let ghost grest = students_view(rest@);
                let mut out: Vec<StudentEntry> = Vec::new();
                out.push(e);
                let mut rest = rest;
                out.append(&mut rest);
                proof {
                    assert(students_view(out@) =~= seq![ev] + grest);
                }
                Some((out, j2))
            },
        },
    }
}

fn parse_teacher(doc: &Vec<char>, i: usize) -> (r: Option<(TeacherEntry, usize)>)
    ensures
        r is Some <==> dec_teacher(doc@, i as int) is Some,
        r matches Some((e, j)) ==> dec_teacher(doc@, i as int) == Some((e@, j as int)),
{
    match parse_str(doc, i) {
        None => None,
        Some((name, j)) => match parse_str(doc, j) {
            None => None,
            Some((dn, j2)) => match parse_str(doc, j2) {
                None => None,
                Some((pw, j3)) => Some(
                    (TeacherEntry { name, teacher: Teacher { name: dn, password: pw } }, j3),
                ),
            },
        },
    }
}

fn parse_teachers(doc: &Vec<char>, i: usize, count: u32) -> (r: Option<
    (Vec<TeacherEntry>, usize),
>)
    ensures
        r is Some <==> dec_teachers(doc@, i as int, count as int) is Some,
        r matches Some((v, j)) ==> dec_teachers(doc@, i as int, count as int) == Some(
            (teachers_view(v@), j as int),
        ),
    decreases count,
{
    if count == 0 {
        let out: Vec<TeacherEntry> = Vec::new();
        proof {
            assert(teachers_view(out@) =~= Seq::<TeacherEntryV>::empty());
        }
        return Some((out, i));
    }
    match parse_teacher(doc, i) {
        None => None,
        Some((e, j)) => match parse_teachers(doc, j, count - 1) {
            None => None,
            Some((rest, j2)) => {
                let ghost ev = e@;
                let ghost grest = teachers_view(rest@);
                let mut out: Vec<TeacherEntry> = Vec::new();
                out.push(e);
                let mut rest = rest;
                out.append(&mut rest);
                proof {
                    assert(teachers_view(out@) =~= seq![ev] + grest);
                }
                Some((out, j2))
            },
        },
    }
}

/// Decode a canonical document back into a store; `None` exactly when the
/// document is not an encoding.
pub fn decode_db(doc: &Vec<char>) -> (r: Option<DataBase>)
    ensures
        r is Some <==> dec_db(doc@) is Some,
        r matches Some(db) ==> dec_db(doc@) == Some(db@),
{
    match parse_u32(doc, 0) {
        None => None,
        Some((ns, j)) => match parse_students(doc, j, ns) {
            None => None,
            Some((students, j2)) => match parse_u32(doc, j2) {
                None => None,
                Some((nt, j3)) => match parse_teachers(doc, j3, nt) {
                    None => None,
                    Some((teachers, j4)) => {
                        if j4 == doc.len() {
                            Some(DataBase { students, teachers })
                        } else {
                            None
                        }
                    },
                },
            },
        },
    }
}

/// Decide whether the store fits the format (executable form of
/// `db_encodable`).
pub fn check_encodable(db: &DataBase) -> (r: bool)
    ensures
        r == db_encodable(db@),
{
    if db.students.len() as u64 >= 0x100000000u64 {
        return false;
    }
    if db.teachers.len() as u64 >= 0x100000000u64 {
        return false;
    }
    let ns = db.students.len();
    let mut i: usize = 0;
    while i < ns
        invariant
            ns == db.students.len(),
            i <= ns,
            forall|p: int| 0 <= p < i ==> student_encodable(#[trigger] db@.students[p]),
        decreases ns - i,
    {
        let e = &db.students[i];
        if chars_of(e.name.as_str()).len() as u64 >= 0x100000000u64 {
            assert(!student_encodable(db@.students[i as int]));
            return false;
        }
        if chars_of(e.student.password.as_str()).len() as u64 >= 0x100000000u64 {
            assert(!student_encodable(db@.students[i as int]));
            return false;
        }
        if e.student.grades.len() as u64 >= 0x100000000u64 {
            assert(!student_encodable(db@.students[i as int]));
            return false;
        }
        assert(student_encodable(db@.students[i as int]));
        i = i + 1;
    }
    let nt = db.teachers.len();
    let mut i: usize = 0;
    while i < nt
        invariant
            nt == db.teachers.len(),
            i <= nt,
            forall|p: int| 0 <= p < i ==> teacher_encodable(#[trigger] db@.teachers[p]),
        decreases nt - i,
    {
        let e = &db.teachers[i];
        if chars_of(e.name.as_str()).len() as u64 >= 0x100000000u64 {
            assert(!teacher_encodable(db@.teachers[i as int]));
            return false;
        }
        if chars_of(e.teacher.name.as_str()).len() as u64 >= 0x100000000u64 {
            assert(!teacher_encodable(db@.teachers[i as int]));
            return false;
        }
        if chars_of(e.teacher.password.as_str()).len() as u64 >= 0x100000000u64 {
            assert(!teacher_encodable(db@.teachers[i as int]));
            return false;
        }
        assert(teacher_encodable(db@.teachers[i as int]));
        i = i + 1;
    }
    true
}

} // verus!
