//! Task records: named fields, each holding one or more string values, and
//! the set of tasks loaded from one file.
use vstd::prelude::*;
use crate::text::texts;

verus! {

/// One named field of a record with its values.
#[derive(Clone, Debug)]
pub struct Field {
    pub name: String,
    pub values: Vec<String>,
}

/// A task record: fields in a fixed order and an optional comment.
#[derive(Clone, Debug)]
pub struct Record {
    pub fields: Vec<Field>,
    pub comment: Option<String>,
}

/// A field as a name and a sequence of values.
pub type FieldModel = (Seq<char>, Seq<Seq<char>>);

/// What a record holds.
pub struct RecordModel {
    pub fields: Seq<FieldModel>,
    pub comment: Option<Seq<char>>,
}

impl View for Field {
    type V = FieldModel;

    open spec fn view(&self) -> FieldModel {
        (self.name@, texts(self.values@))
    }
}

/// The view of an optional string.
pub open spec fn opt_text(o: Option<String>) -> Option<Seq<char>> {
    match o {
        Some(s) => Some(s@),
        None => None,
    }
}

impl View for Record {
    type V = RecordModel;

    open spec fn view(&self) -> RecordModel {
        RecordModel { fields: self.fields@.map_values(|f: Field| f@), comment: opt_text(self.comment) }
    }
}

/// The field names of `fs`, in order.
pub open spec fn names(fs: Seq<FieldModel>) -> Seq<Seq<char>> {
    fs.map_values(|f: FieldModel| f.0)
}

/// `i` is the first field of `fs` named `name`.
pub open spec fn is_first(fs: Seq<FieldModel>, name: Seq<char>, i: int) -> bool {
    &&& 0 <= i < fs.len()
    &&& fs[i].0 == name
    &&& forall|k: int| 0 <= k < i ==> #[trigger] fs[k].0 != name
}

/// The position of the first field named `name`, if there is one.
pub open spec fn lookup(fs: Seq<FieldModel>, name: Seq<char>) -> Option<int> {
    if exists|i: int| is_first(fs, name, i) {
        Some(choose|i: int| is_first(fs, name, i))
    } else {
        None
    }
}

/// The values of the field named `name`; none where there is no such field.
pub open spec fn values_of(m: RecordModel, name: Seq<char>) -> Seq<Seq<char>> {
    match lookup(m.fields, name) {
        Some(i) => m.fields[i].1,
        None => Seq::empty(),
    }
}

/// The number of values of the field named `name`; zero where there is no such field.
pub open spec fn arity_of(m: RecordModel, name: Seq<char>) -> nat {
    values_of(m, name).len()
}

/// `m` with the values of the field named `name` replaced by `vs`; `m` itself
/// where there is no such field.
pub open spec fn replaced(m: RecordModel, name: Seq<char>, vs: Seq<Seq<char>>) -> RecordModel {
    match lookup(m.fields, name) {
        Some(i) => RecordModel { fields: m.fields.update(i, (name, vs)), comment: m.comment },
        None => m,
    }
}

/// `n` empty strings.
pub open spec fn blanks(n: nat) -> Seq<Seq<char>> {
    Seq::new(n, |i: int| Seq::<char>::empty())
}

/// The answer shell of `m`: the same field names, each with as many empty
/// values as it has values, and no comment.
pub open spec fn shell_of(m: RecordModel) -> RecordModel {
    RecordModel {
        fields: m.fields.map_values(|f: FieldModel| (f.0, blanks(f.1.len()))),
        comment: None,
    }
}

/// The values joined by ", ".
pub open spec fn joined(vs: Seq<Seq<char>>) -> Seq<char>
    decreases vs.len(),
{
    if vs.len() == 0 {
        Seq::empty()
    } else if vs.len() == 1 {
        vs[0]
    } else {
        joined(vs.drop_last()) + ", "@ + vs.last()
    }
}

/// One line per field: its name, a colon and its values.
pub open spec fn rendered(fs: Seq<FieldModel>) -> Seq<char>
    decreases fs.len(),
{
    if fs.len() == 0 {
        Seq::empty()
    } else {
        rendered(fs.drop_last()) + fs.last().0 + ": "@ + joined(fs.last().1) + "\n"@
    }
}

/// Replacing values keeps the field names.
pub proof fn lemma_replaced_names(m: RecordModel, name: Seq<char>, vs: Seq<Seq<char>>)
    ensures
        names(replaced(m, name, vs).fields) == names(m.fields),
        replaced(m, name, vs).fields.len() == m.fields.len(),
{
    match lookup(m.fields, name) {
        Some(i) => {
            assert(is_first(m.fields, name, i));
            assert(names(replaced(m, name, vs).fields) =~= names(m.fields));
        },
        None => {},
    }
}

/// Where a field is looked up depends on the field names alone.
pub proof fn lemma_lookup_by_names(fs: Seq<FieldModel>, gs: Seq<FieldModel>, name: Seq<char>)
    requires
        names(fs) == names(gs),
    ensures
        lookup(fs, name) == lookup(gs, name),
        lookup(fs, name) matches Some(i) ==> 0 <= i < fs.len() && fs[i].0 == name && gs[i].0 == name,
{
    assert(fs.len() == names(fs).len() && gs.len() == names(gs).len());
    assert forall|k: int| 0 <= k < fs.len() implies #[trigger] fs[k].0 == gs[k].0 by {
        assert(names(fs)[k] == fs[k].0);
        assert(names(gs)[k] == gs[k].0);
    }
    assert forall|i: int| is_first(fs, name, i) == is_first(gs, name, i) by {
        if is_first(fs, name, i) {
            assert forall|k: int| 0 <= k < i implies #[trigger] gs[k].0 != name by {
                assert(fs[k].0 == gs[k].0);
            }
        }
        if is_first(gs, name, i) {
            assert forall|k: int| 0 <= k < i implies #[trigger] fs[k].0 != name by {
                assert(fs[k].0 == gs[k].0);
            }
        }
    }
    if exists|i: int| is_first(fs, name, i) {
        let i = choose|i: int| is_first(fs, name, i);
        let j = choose|j: int| is_first(gs, name, j);
        assert(is_first(gs, name, i));
        if i < j {
            assert(gs[i].0 != name);
        } else if j < i {
            assert(fs[j].0 != name);
        }
    }
}

/// The answer shell keeps the field names.
pub proof fn lemma_shell_names(m: RecordModel)
    ensures
        names(shell_of(m).fields) == names(m.fields),
{
    assert(names(shell_of(m).fields) =~= names(m.fields));
}

/// A copy of the strings.
pub fn copy_texts(v: &Vec<String>) -> (r: Vec<String>)
    ensures
        texts(r@) == texts(v@),
{
    let mut r: Vec<String> = Vec::new();
    let mut i: usize = 0;
    while i < v.len()
        invariant
            i <= v.len(),
            texts(r@) == texts(v@).subrange(0, i as int),
        decreases v.len() - i,
    {
        let ghost r0 = texts(r@);
        let s = v[i].clone();
        r.push(s);
        assert(texts(r@) =~= r0.push(texts(v@)[i as int]));
        i = i + 1;
        assert(texts(r@) =~= texts(v@).subrange(0, i as int));
    }
    assert(texts(v@).subrange(0, i as int) =~= texts(v@));
    r
}

impl Record {
    /// The position of the first field named `name`.
    pub fn find_field(&self, name: &str) -> (r: Option<usize>)
        ensures
            match r {
                Some(i) => lookup(self@.fields, name@) == Some(i as int),
                None => lookup(self@.fields, name@) is None,
            },
    {
        let ghost fs = self@.fields;
        let mut i: usize = 0;
        while i < self.fields.len()
            invariant
                fs == self@.fields,
                i <= fs.len(),
                forall|k: int| 0 <= k < i ==> #[trigger] fs[k].0 != name@,
            decreases self.fields.len() - i,
        {
            if self.fields[i].name.as_str().unicode_len() == name.unicode_len()
                && self.fields[i].name == String::from_str(name) {
                assert(is_first(fs, name@, i as int));
                assert forall|j: int| #[trigger] is_first(fs, name@, j) implies j == i by {
                    if j < i {
                    } else if j > i {
                        assert(fs[i as int].0 == name@);
                    }
                }
                return Some(i);
            }
            i = i + 1;
        }
        None
    }

    /// The field names, in order.
    pub fn get_fields(&self) -> (r: Vec<String>)
        ensures
            texts(r@) == names(self@.fields),
    {
        let mut r: Vec<String> = Vec::new();
        let mut i: usize = 0;
        while i < self.fields.len()
            invariant
                i <= self.fields.len(),
                texts(r@) == names(self@.fields).subrange(0, i as int),
            decreases self.fields.len() - i,
        {
            let ghost r0 = texts(r@);
            let s = self.fields[i].name.clone();
            r.push(s);
            assert(texts(r@) =~= r0.push(names(self@.fields)[i as int]));
            i = i + 1;
            assert(texts(r@) =~= names(self@.fields).subrange(0, i as int));
        }
        assert(names(self@.fields).subrange(0, i as int) =~= names(self@.fields));
        r
    }

    /// The number of values of the field named `name` (zero if there is none).
    pub fn field_len(&self, name: &str) -> (r: usize)
        ensures
            r == arity_of(self@, name@),
    {
        match self.find_field(name) {
            Some(i) => self.fields[i].values.len(),
            None => 0,
        }
    }

    /// Replaces the values of the field named `name`; a record without such a
    /// field stays as it is.
    pub fn replace(&mut self, name: &str, values: Vec<String>)
        ensures
            final(self)@ == replaced(old(self)@, name@, texts(values@)),
    {
        match self.find_field(name) {
            Some(i) => {
                let ghost fs = self@.fields;
                let mut f = self.fields.remove(i);
                f.values = values;
                self.fields.insert(i, f);
                assert(self@.fields =~= fs.update(i as int, (name@, texts(values@))));
            },
            None => {},
        }
    }

    /// The answer shell: the same field names and arities, every value empty.
    pub fn copy_format(&self) -> (r: Record)
        ensures
            r@ == shell_of(self@),
    {
        let mut fields: Vec<Field> = Vec::new();
        let mut i: usize = 0;
        while i < self.fields.len()
            invariant
                i <= self.fields.len(),
                fields@.map_values(|f: Field| f@) == shell_of(self@).fields.subrange(0, i as int),
            decreases self.fields.len() - i,
        {
            let n = self.fields[i].values.len();
            let mut values: Vec<String> = Vec::new();
            let mut j: usize = 0;
            while j < n
                invariant
                    j <= n,
                    texts(values@) == blanks(j as nat),
                decreases n - j,
            {
                let ghost v0 = texts(values@);
                values.push(String::new());
                assert(texts(values@) =~= v0.push(Seq::<char>::empty()));
                j = j + 1;
                assert(texts(values@) =~= blanks(j as nat));
            }
            let ghost f0 = fields@.map_values(|f: Field| f@);
            let name = self.fields[i].name.clone();
            let field = Field { name, values };
            assert(field@ == shell_of(self@).fields[i as int]);
            fields.push(field);
            assert(fields@.map_values(|f: Field| f@) =~= f0.push(field@));
            i = i + 1;
            assert(fields@.map_values(|f: Field| f@) =~= shell_of(self@).fields.subrange(0, i as int));
        }
        assert(shell_of(self@).fields.subrange(0, i as int) =~= shell_of(self@).fields);
        Record { fields, comment: None }
    }

    /// The record as text, one line per field.
    pub fn render(&self) -> (r: String)
        ensures
            r@ == rendered(self@.fields),
    {
        let mut r = String::new();
        let mut i: usize = 0;
        while i < self.fields.len()
            invariant
                i <= self.fields.len(),
                r@ == rendered(self@.fields.subrange(0, i as int)),
            decreases self.fields.len() - i,
        {
            let f = &self.fields[i];
            r.append(f.name.as_str());
            r.append(": ");
            let mut j: usize = 0;
            let ghost base = r@;
            while j < f.values.len()
                invariant
                    j <= f.values.len(),
                    r@ == base + joined(texts(f.values@).subrange(0, j as int)),
                decreases f.values.len() - j,
            {
                if j > 0 {
                    r.append(", ");
                }
                r.append(f.values[j].as_str());
                j = j + 1;
                assert(texts(f.values@).subrange(0, j as int).drop_last() =~= texts(f.values@).subrange(0, j - 1));
            }
            r.append("\n");
            assert(texts(f.values@).subrange(0, j as int) =~= texts(f.values@));
            assert(self@.fields.subrange(0, i + 1).drop_last() =~= self@.fields.subrange(0, i as int));
            i = i + 1;
        }
        assert(self@.fields.subrange(0, i as int) =~= self@.fields);
        r
    }
}

/// The tasks loaded from one file and the position of the task being answered.
#[derive(Clone, Debug)]
pub struct Tasks {
    pub records: Vec<Record>,
    pub current: Option<usize>,
}

impl Tasks {
    /// The current task, when there is one, lies within the set.
    pub open spec fn wf(&self) -> bool {
        match self.current {
            Some(i) => i < self.records.len(),
            None => true,
        }
    }

    /// A task set with no task drawn yet.
    pub fn new(records: Vec<Record>) -> (r: Tasks)
        ensures
            r.records@ == records@,
            r.current is None,
            r.wf(),
    {
        Tasks { records, current: None }
    }

    /// The number of tasks.
    pub fn len(&self) -> (r: usize)
        ensures
            r == self.records.len(),
    {
        self.records.len()
    }

    /// Makes task `draw % len` the current one and returns its position; `draw`
    /// is a number chosen at random by the caller.
    pub fn get_random_task(&mut self, draw: usize) -> (r: usize)
        requires
            old(self).records.len() > 0,
        ensures
            r == draw % old(self).records.len(),
            final(self).records@ == old(self).records@,
            final(self).current == Some(r),
            final(self).wf(),
    {
        let i = draw % self.records.len();
        self.current = Some(i);
        i
    }
}

} // verus!
