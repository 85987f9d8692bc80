//! The record store: two independent identity-keyed partitions, one for
//! standard holders (students, who carry a grade payload) and one for elevated
//! operators (teachers). Identities are unique and non-empty within each
//! partition, and every grade lies in the fixed valid range.

use vstd::prelude::*;

verus! {

/// Grades are stored in tenths of a point; the valid domain 0.0..=6.0
/// becomes 0..=60.
pub const GRADE_MAX: u32 = 60;

/// A standard holder's protected record: a credential string produced by the
/// password hasher, plus the ordered grade payload (tenths of a point).
pub struct Student {
    pub grades: Vec<u32>,
    pub password: String,
}

/// An elevated operator's record: a display name plus a credential string.
pub struct Teacher {
    pub name: String,
    pub password: String,
}

/// A student partition entry: the identity key and its record.
pub struct StudentEntry {
    pub name: String,
    pub student: Student,
}

/// A teacher partition entry: the identity key and its record.
pub struct TeacherEntry {
    pub name: String,
    pub teacher: Teacher,
}

/// Mathematical model of a student record.
pub struct StudentV {
    pub grades: Seq<u32>,
    pub password: Seq<char>,
}

/// Mathematical model of a teacher record.
pub struct TeacherV {
    pub name: Seq<char>,
    pub password: Seq<char>,
}

/// Mathematical model of a student partition entry.
pub struct StudentEntryV {
    pub name: Seq<char>,
    pub student: StudentV,
}

/// Mathematical model of a teacher partition entry.
pub struct TeacherEntryV {
    pub name: Seq<char>,
    pub teacher: TeacherV,
}

/// Mathematical model of the whole store: both partitions, in order.
pub struct DataBaseV {
    pub students: Seq<StudentEntryV>,
    pub teachers: Seq<TeacherEntryV>,
}

impl View for Student {
    type V = StudentV;

    open spec fn view(&self) -> StudentV {
        StudentV { grades: self.grades@, password: self.password@ }
    }
}

impl View for Teacher {
    type V = TeacherV;

    open spec fn view(&self) -> TeacherV {
        TeacherV { name: self.name@, password: self.password@ }
    }
}

impl View for StudentEntry {
    type V = StudentEntryV;

    open spec fn view(&self) -> StudentEntryV {
        StudentEntryV { name: self.name@, student: self.student@ }
    }
}

impl View for TeacherEntry {
    type V = TeacherEntryV;

    open spec fn view(&self) -> TeacherEntryV {
        TeacherEntryV { name: self.name@, teacher: self.teacher@ }
    }
}

/// The record store: two independently usable partitions.
pub struct DataBase {
    pub students: Vec<StudentEntry>,
    pub teachers: Vec<TeacherEntry>,
}

/// The model of a student entry sequence: each entry's view, in order.
pub open spec fn students_view(s: Seq<StudentEntry>) -> Seq<StudentEntryV> {
    Seq::new(s.len(), |i: int| s[i]@)
}

/// The model of a teacher entry sequence: each entry's view, in order.
pub open spec fn teachers_view(s: Seq<TeacherEntry>) -> Seq<TeacherEntryV> {
    Seq::new(s.len(), |i: int| s[i]@)
}

impl View for DataBase {
    type V = DataBaseV;

    open spec fn view(&self) -> DataBaseV {
        DataBaseV {
            students: students_view(self.students@),
            teachers: teachers_view(self.teachers@),
        }
    }
}

/// Every grade of the record lies in the valid range.
pub open spec fn student_wf(s: StudentV) -> bool {
    forall|i: int| 0 <= i < s.grades.len() ==> (#[trigger] s.grades[i]) <= GRADE_MAX
}

/// Store invariant: within each partition identities are unique and
/// non-empty, and every student record is range-valid.
pub open spec fn db_wf(d: DataBaseV) -> bool {
    &&& forall|i: int, j: int|
        0 <= i < j < d.students.len() ==> (#[trigger] d.students[i]).name != (
        #[trigger] d.students[j]).name
    &&& forall|i: int| 0 <= i < d.students.len() ==> (#[trigger] d.students[i]).name.len() > 0
    &&& forall|i: int| 0 <= i < d.students.len() ==> student_wf((#[trigger] d.students[i]).student)
    &&& forall|i: int, j: int|
        0 <= i < j < d.teachers.len() ==> (#[trigger] d.teachers[i]).name != (
        #[trigger] d.teachers[j]).name
    &&& forall|i: int| 0 <= i < d.teachers.len() ==> (#[trigger] d.teachers[i]).name.len() > 0
}

/// Some student entry carries this identity.
pub open spec fn has_student(d: DataBaseV, name: Seq<char>) -> bool {
    exists|i: int| 0 <= i < d.students.len() && (#[trigger] d.students[i]).name == name
}

/// The record of the student entry carrying this identity (meaningful only
/// when `has_student` holds; unique under `db_wf`).
pub open spec fn student_record(d: DataBaseV, name: Seq<char>) -> StudentV {
    let i = choose|i: int| 0 <= i < d.students.len() && (#[trigger] d.students[i]).name == name;
    d.students[i].student
}

/// Some teacher entry carries this identity.
pub open spec fn has_teacher(d: DataBaseV, name: Seq<char>) -> bool {
    exists|i: int| 0 <= i < d.teachers.len() && (#[trigger] d.teachers[i]).name == name
}

/// The record of the teacher entry carrying this identity (meaningful only
/// when `has_teacher` holds; unique under `db_wf`).
pub open spec fn teacher_record(d: DataBaseV, name: Seq<char>) -> TeacherV {
    let i = choose|i: int| 0 <= i < d.teachers.len() && (#[trigger] d.teachers[i]).name == name;
    d.teachers[i].teacher
}

/// Outcome of appending a grade to a record.
#[derive(Clone, Copy, PartialEq, Eq, Structural, Debug)]
pub enum AppendOutcome {
    Appended,
    NotFound,
    OutOfRange,
}

/// Under the store invariant, an entry that carries `name` is the one that
/// `student_record` denotes: identities are unique in the partition.
pub proof fn lemma_student_at(d: DataBaseV, i: int, name: Seq<char>)
    requires
        db_wf(d),
        0 <= i < d.students.len(),
        d.students[i].name == name,
    ensures
        has_student(d, name),
        student_record(d, name) == d.students[i].student,
{
    assert(has_student(d, name));
    let w = choose|w: int| 0 <= w < d.students.len() && (#[trigger] d.students[w]).name == name;
    if w < i {
        assert(d.students[w].name != d.students[i].name);
    } else if i < w {
        assert(d.students[i].name != d.students[w].name);
    }
}

/// The teacher-partition counterpart of `lemma_student_at`.
pub proof fn lemma_teacher_at(d: DataBaseV, i: int, name: Seq<char>)
    requires
        db_wf(d),
        0 <= i < d.teachers.len(),
        d.teachers[i].name == name,
    ensures
        has_teacher(d, name),
        teacher_record(d, name) == d.teachers[i].teacher,
{
    assert(has_teacher(d, name));
    let w = choose|w: int| 0 <= w < d.teachers.len() && (#[trigger] d.teachers[w]).name == name;
    if w < i {
        assert(d.teachers[w].name != d.teachers[i].name);
    } else if i < w {
        assert(d.teachers[i].name != d.teachers[w].name);
    }
}

impl DataBase {
    /// An empty store: both partitions empty. Trivially well formed.
    pub fn new() -> (r: DataBase)
        ensures
            r@.students.len() == 0,
            r@.teachers.len() == 0,
            db_wf(r@),
    {
        DataBase { students: Vec::new(), teachers: Vec::new() }
    }

    /// Position of the student entry that carries this identity, if any.
    fn find_student_idx(&self, name: &String) -> (r: Option<usize>)
        requires
            db_wf(self@),
        ensures
            r is Some <==> has_student(self@, name@),
            r matches Some(i) ==> i < self@.students.len() && self@.students[i as int].name
                == name@,
    {
        let n = self.students.len();
        let mut i: usize = 0;
        while i < n
            invariant
                n == self.students.len(),
                i <= n,
                forall|j: int| 0 <= j < i ==> (#[trigger] self@.students[j]).name != name@,
            decreases n - i,
        {
            if self.students[i].name == *name {
                assert(self@.students[i as int].name == name@);
                return Some(i);
            }
            i = i + 1;
        }
        assert(!has_student(self@, name@));
        None
    }

    /// Position of the teacher entry that carries this identity, if any.
    fn find_teacher_idx(&self, name: &String) -> (r: Option<usize>)
        requires
            db_wf(self@),
        ensures
            r is Some <==> has_teacher(self@, name@),
            r matches Some(i) ==> i < self@.teachers.len() && self@.teachers[i as int].name
                == name@,
    {
        let n = self.teachers.len();
        let mut i: usize = 0;
        while i < n
            invariant
                n == self.teachers.len(),
                i <= n,
                forall|j: int| 0 <= j < i ==> (#[trigger] self@.teachers[j]).name != name@,
            decreases n - i,
        {
            if self.teachers[i].name == *name {
                assert(self@.teachers[i as int].name == name@);
                return Some(i);
            }
            i = i + 1;
        }
        assert(!has_teacher(self@, name@));
        None
    }

    /// Read access to a standard holder's record: `Some` exactly when the
    /// identity exists in the student partition.
    pub fn read_record(&self, name: &String) -> (r: Option<&Student>)
        requires
            db_wf(self@),
        ensures
            r is Some <==> has_student(self@, name@),
            r matches Some(st) ==> st@ == student_record(self@, name@),
    {
        match self.find_student_idx(name) {
            Some(i) => {
                proof {
                    lemma_student_at(self@, i as int, name@);
                }
                Some(&self.students[i].student)
            },
            None => None,
        }
    }

    /// Read access to an operator's record: `Some` exactly when the identity
    /// exists in the teacher partition.
    pub fn read_teacher(&self, name: &String) -> (r: Option<&Teacher>)
        requires
            db_wf(self@),
        ensures
            r is Some <==> has_teacher(self@, name@),
            r matches Some(t) ==> t@ == teacher_record(self@, name@),
    {
        match self.find_teacher_idx(name) {
            Some(i) => {
                proof {
                    lemma_teacher_at(self@, i as int, name@);
                }
                Some(&self.teachers[i].teacher)
            },
            None => None,
        }
    }

    /// Append a grade to the identified record. The value is validated
    /// against the fixed range before it can reach the store; an unknown
    /// identity leaves the store untouched; on success exactly the one
    /// addressed record grows by exactly the one appended entry.
    pub fn append_entry(&mut self, name: &String, grade: u32) -> (r: AppendOutcome)
        requires
            db_wf(old(self)@),
        ensures
            db_wf(final(self)@),
            final(self)@.teachers == old(self)@.teachers,
            grade > GRADE_MAX ==> r == AppendOutcome::OutOfRange && final(self)@ == old(self)@,
            grade <= GRADE_MAX && !has_student(old(self)@, name@) ==> r == AppendOutcome::NotFound
                && final(self)@ == old(self)@,
            grade <= GRADE_MAX && has_student(old(self)@, name@) ==> {
                &&& r == AppendOutcome::Appended
                &&& has_student(final(self)@, name@)
                &&& student_record(final(self)@, name@).grades == student_record(
                    old(self)@,
                    name@,
                ).grades.push(grade)
                &&& student_record(final(self)@, name@).password == student_record(
                    old(self)@,
                    name@,
                ).password
                &&& final(self)@.students.len() == old(self)@.students.len()
                &&& forall|n: Seq<char>|
                    n != name@ ==> (#[trigger] has_student(final(self)@, n)) == has_student(
                        old(self)@,
                        n,
                    ) && (has_student(final(self)@, n) ==> student_record(final(self)@, n) == student_record(
                        old(self)@,
                        n,
                    ))
            },
    {
        if grade > GRADE_MAX {
            return AppendOutcome::OutOfRange;
        }
        match self.find_student_idx(name) {
            None => AppendOutcome::NotFound,
            Some(i) => {
                let ghost old_db = self@;
                let mut entry = self.students.remove(i);
                entry.student.grades.push(grade);
                self.students.insert(i, entry);
                proof {
                    let e = self@.students[i as int];
                    assert(self@.teachers =~= old_db.teachers);
                    assert(self@.students =~= old_db.students.update(i as int, e));
                    assert(forall|j: int|
                        0 <= j < self@.students.len() ==> (#[trigger] self@.students[j]).name
                            == old_db.students[j].name);
                    assert(forall|j: int|
                        0 <= j < self@.students.len() && j != i ==> (#[trigger] self@.students[j])
                            == old_db.students[j]);
                    assert(student_wf(e.student)) by {
                        assert(student_wf(old_db.students[i as int].student));
                        assert(e.student.grades =~= old_db.students[i as int].student.grades.push(
                            grade,
                        ));
                    }
                    assert(db_wf(self@));
                    lemma_student_at(old_db, i as int, name@);
                    lemma_student_at(self@, i as int, name@);
                    assert forall|n: Seq<char>| n != name@ implies (#[trigger] has_student(
                        self@,
                        n,
                    )) == has_student(old_db, n) && (has_student(self@, n) ==> student_record(
                        self@,
                        n,
                    ) == student_record(old_db, n)) by {
                        if has_student(old_db, n) {
                            let j = choose|j: int|
                                0 <= j < old_db.students.len() && (#[trigger] old_db.students[j]).name
                                    == n;
                            assert(j != i);
                            assert(self@.students[j].name == n);
                            lemma_student_at(self@, j, n);
                            lemma_student_at(old_db, j, n);
                        }
                        if has_student(self@, n) {
                            let j = choose|j: int|
                                0 <= j < self@.students.len() && (#[trigger] self@.students[j]).name
                                    == n;
                            assert(j != i);
                            assert(old_db.students[j].name == n);
                            assert(has_student(old_db, n));
                        }
                    }
                }
                AppendOutcome::Appended
            },
        }
    }

    /// Every grade of the record lies in the valid range (executable check).
    fn student_ok(student: &Student) -> (r: bool)
        ensures
            r == student_wf(student@),
    {
        let n = student.grades.len();
        let mut i: usize = 0;
        while i < n
            invariant
                n == student.grades.len(),
                i <= n,
                forall|j: int| 0 <= j < i ==> (#[trigger] student@.grades[j]) <= GRADE_MAX,
            decreases n - i,
        {
            if student.grades[i] > GRADE_MAX {
                assert(student@.grades[i as int] > GRADE_MAX);
                return false;
            }
            i = i + 1;
        }
        true
    }

    /// Create a standard holder. Succeeds exactly when the identity is
    /// non-empty and fresh in its partition and the record is range-valid;
    /// then the entry is appended and nothing else changes.
    pub fn add_student(&mut self, name: String, student: Student) -> (r: bool)
        requires
            db_wf(old(self)@),
        ensures
            db_wf(final(self)@),
            r <==> (name@.len() > 0 && student_wf(student@) && !has_student(old(self)@, name@)),
            r ==> final(self)@.students == old(self)@.students.push(
                StudentEntryV { name: name@, student: student@ },
            ) && final(self)@.teachers == old(self)@.teachers,
            !r ==> final(self)@ == old(self)@,
    {
        if name.as_str().is_empty() || !Self::student_ok(&student) {
            return false;
        }
        if self.find_student_idx(&name).is_some() {
            return false;
        }
        let ghost old_db = self@;
        self.students.push(StudentEntry { name, student });
        proof {
            assert(self@.teachers =~= old_db.teachers);
            assert(self@.students =~= old_db.students.push(
                self@.students[old_db.students.len() as int],
            ));
            assert forall|j: int| 0 <= j < old_db.students.len() implies (
            #[trigger] old_db.students[j]).name != self@.students[old_db.students.len() as int].name by {
                if old_db.students[j].name == self@.students[old_db.students.len() as int].name {
                    assert(has_student(old_db, self@.students[old_db.students.len() as int].name));
                }
            }
            assert(db_wf(self@));
        }
        true
    }

    /// Create an elevated operator. Succeeds exactly when the identity is
    /// non-empty and fresh in its partition; then the entry is appended and
    /// nothing else changes.
    pub fn add_teacher(&mut self, name: String, teacher: Teacher) -> (r: bool)
        requires
            db_wf(old(self)@),
        ensures
            db_wf(final(self)@),
            r <==> (name@.len() > 0 && !has_teacher(old(self)@, name@)),
            r ==> final(self)@.teachers == old(self)@.teachers.push(
                TeacherEntryV { name: name@, teacher: teacher@ },
            ) && final(self)@.students == old(self)@.students,
            !r ==> final(self)@ == old(self)@,
    {
        if name.as_str().is_empty() {
            return false;
        }
        if self.find_teacher_idx(&name).is_some() {
            return false;
        }
        let ghost old_db = self@;
        self.teachers.push(TeacherEntry { name, teacher });
        proof {
            assert(self@.students =~= old_db.students);
            assert(self@.teachers =~= old_db.teachers.push(
                self@.teachers[old_db.teachers.len() as int],
            ));
            assert forall|j: int| 0 <= j < old_db.teachers.len() implies (
            #[trigger] old_db.teachers[j]).name != self@.teachers[old_db.teachers.len() as int].name by {
                if old_db.teachers[j].name == self@.teachers[old_db.teachers.len() as int].name {
                    assert(has_teacher(old_db, self@.teachers[old_db.teachers.len() as int].name));
                }
            }
            assert(db_wf(self@));
        }
        true
    }

    /// Decide the store invariant (executable form of `db_wf`).
    pub fn check_wf(&self) -> (r: bool)
        ensures
            r == db_wf(self@),
    {
        let ns = self.students.len();
        let mut i: usize = 0;
        while i < ns
            invariant
                ns == self.students.len(),
                i <= ns,
                forall|p: int| 0 <= p < i ==> (#[trigger] self@.students[p]).name.len() > 0,
                forall|p: int| 0 <= p < i ==> student_wf((#[trigger] self@.students[p]).student),
                forall|p: int, q: int|
                    0 <= p < q < i ==> (#[trigger] self@.students[p]).name != (
                    #[trigger] self@.students[q]).name,
            decreases ns - i,
        {
            if self.students[i].name.as_str().is_empty() {
                assert(self@.students[i as int].name.len() == 0);
                return false;
            }
            if !Self::student_ok(&self.students[i].student) {
                assert(!student_wf(self@.students[i as int].student));
                return false;
            }
            let mut j: usize = 0;
            while j < i
                invariant
                    ns == self.students.len(),
                    i < ns,
                    j <= i,
                    forall|q: int|
                        0 <= q < j ==> (#[trigger] self@.students[q]).name != self@.students[i as int].name,
                decreases i - j,
            {
                if self.students[j].name == self.students[i].name {
                    assert(self@.students[j as int].name == self@.students[i as int].name);
                    return false;
                }
                j = j + 1;
            }
            i = i + 1;
        }
        let nt = self.teachers.len();
        let mut i: usize = 0;
        while i < nt
            invariant
                ns == self.students.len(),
                nt == self.teachers.len(),
                i <= nt,
                forall|p: int| 0 <= p < ns ==> (#[trigger] self@.students[p]).name.len() > 0,
                forall|p: int| 0 <= p < ns ==> student_wf((#[trigger] self@.students[p]).student),
                forall|p: int, q: int|
                    0 <= p < q < ns ==> (#[trigger] self@.students[p]).name != (
                    #[trigger] self@.students[q]).name,
                forall|p: int| 0 <= p < i ==> (#[trigger] self@.teachers[p]).name.len() > 0,
                forall|p: int, q: int|
                    0 <= p < q < i ==> (#[trigger] self@.teachers[p]).name != (
                    #[trigger] self@.teachers[q]).name,
            decreases nt - i,
        {
            if self.teachers[i].name.as_str().is_empty() {
                assert(self@.teachers[i as int].name.len() == 0);
                return false;
            }
            let mut j: usize = 0;
            while j < i
                invariant
                    nt == self.teachers.len(),
                    i < nt,
                    j <= i,
                    forall|q: int|
                        0 <= q < j ==> (#[trigger] self@.teachers[q]).name != self@.teachers[i as int].name,
                decreases i - j,
            {
                if self.teachers[j].name == self.teachers[i].name {
                    assert(self@.teachers[j as int].name == self@.teachers[i as int].name);
                    return false;
                }
                j = j + 1;
            }
            i = i + 1;
        }
        true
    }
}

} // verus!
