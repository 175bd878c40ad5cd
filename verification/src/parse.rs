//! Reading a file target from the value that a document holds for it.

use crate::target::{text_view, FileTarget, TargetKind, TargetView, TemplateTarget};
use crate::text::same_text;
use vstd::prelude::*;
use vstd::string::StringExecFns;

verus! {

/// A value of a record as the document holds it.
#[derive(Debug, Clone, PartialEq, Eq)]
pub enum RawValue {
    /// A string.
    Text(String),
    /// Anything else.
    Other,
}

/// One entry of a record: a key and its value.
#[derive(Debug, Clone, PartialEq, Eq)]
pub struct RawField {
    pub key: String,
    pub value: RawValue,
}

/// What a document holds in the place of a file target.
#[derive(Debug, Clone, PartialEq, Eq)]
pub enum RawTarget {
    /// A bare string.
    Text(String),
    /// A record, its entries in the order of the document.
    Record(Vec<RawField>),
    /// Neither of the two.
    Other,
}

/// The content of a [`RawValue`].
pub enum RawValueView {
    Text(Seq<char>),
    Other,
}

/// The content of a [`RawField`].
pub struct RawFieldView {
    pub key: Seq<char>,
    pub value: RawValueView,
}

/// The content of a [`RawTarget`].
pub enum RawTargetView {
    Text(Seq<char>),
    Record(Seq<RawFieldView>),
    Other,
}

impl View for RawValue {
    type V = RawValueView;

    open spec fn view(&self) -> RawValueView {
        match *self {
            RawValue::Text(t) => RawValueView::Text(t@),
            RawValue::Other => RawValueView::Other,
        }
    }
}

impl View for RawField {
    type V = RawFieldView;

    open spec fn view(&self) -> RawFieldView {
        RawFieldView { key: self.key@, value: self.value@ }
    }
}

/// The content of each entry of a record.
pub open spec fn field_views(entries: Seq<RawField>) -> Seq<RawFieldView> {
    Seq::new(entries.len(), |i: int| entries[i]@)
}

impl View for RawTarget {
    type V = RawTargetView;

    open spec fn view(&self) -> RawTargetView {
        match *self {
            RawTarget::Text(path) => RawTargetView::Text(path@),
            RawTarget::Record(entries) => RawTargetView::Record(field_views(entries@)),
            RawTarget::Other => RawTargetView::Other,
        }
    }
}

/// The keys that a record may hold.
#[derive(Debug, Clone, Copy, PartialEq, Eq)]
pub enum Field {
    Target,
    Append,
    Prepend,
    Type,
}

/// Why a value is no file target.
#[derive(Debug, Clone, PartialEq, Eq)]
pub enum TargetError {
    /// The value is neither a string nor a record.
    NotStringOrRecord,
    /// The record holds a key that is none of the four.
    UnknownField(String),
    /// The record holds a key twice.
    DuplicateField(Field),
    /// The value under this key is no string.
    NotText(Field),
    /// The record lacks `type` or `target`.
    MissingField(Field),
    /// A symbolic target with `append` or `prepend`.
    AffixOnSymbolic,
    /// The `type` is neither `symbolic` nor `template`.
    UnknownType(String),
}

/// The content of a [`TargetError`].
pub enum TargetErrorView {
    NotStringOrRecord,
    UnknownField(Seq<char>),
    DuplicateField(Field),
    NotText(Field),
    MissingField(Field),
    AffixOnSymbolic,
    UnknownType(Seq<char>),
}

impl View for TargetError {
    type V = TargetErrorView;

    open spec fn view(&self) -> TargetErrorView {
        match *self {
            TargetError::NotStringOrRecord => TargetErrorView::NotStringOrRecord,
            TargetError::UnknownField(k) => TargetErrorView::UnknownField(k@),
            TargetError::DuplicateField(f) => TargetErrorView::DuplicateField(f),
            TargetError::NotText(f) => TargetErrorView::NotText(f),
            TargetError::MissingField(f) => TargetErrorView::MissingField(f),
            TargetError::AffixOnSymbolic => TargetErrorView::AffixOnSymbolic,
            TargetError::UnknownType(t) => TargetErrorView::UnknownType(t@),
        }
    }
}

impl Field {
    /// The key as the document writes it.
    pub open spec fn key(self) -> Seq<char> {
        match self {
            Field::Target => "target"@,
            Field::Append => "append"@,
            Field::Prepend => "prepend"@,
            Field::Type => "type"@,
        }
    }

    /// The key as the document writes it.
    pub fn name(self) -> (s: &'static str)
        ensures
            s@ == self.key(),
    {
        match self {
            Field::Target => "target",
            Field::Append => "append",
            Field::Prepend => "prepend",
            Field::Type => "type",
        }
    }
}

/// The field that a key names, if it names one.
pub open spec fn field_of(key: Seq<char>) -> Option<Field> {
    if key == Field::Target.key() {
        Some(Field::Target)
    } else if key == Field::Append.key() {
        Some(Field::Append)
    } else if key == Field::Prepend.key() {
        Some(Field::Prepend)
    } else if key == Field::Type.key() {
        Some(Field::Type)
    } else {
        None
    }
}

/// What has been read of a record: the text under each key met so far.
pub struct Slots {
    pub kind: Option<Seq<char>>,
    pub target: Option<Seq<char>>,
    pub append: Option<Seq<char>>,
    pub prepend: Option<Seq<char>>,
}

impl Slots {
    /// Nothing read yet.
    pub open spec fn none() -> Slots {
        Slots { kind: None, target: None, append: None, prepend: None }
    }

    /// What was read under the key of `f`.
    pub open spec fn get(self, f: Field) -> Option<Seq<char>> {
        match f {
            Field::Target => self.target,
            Field::Append => self.append,
            Field::Prepend => self.prepend,
            Field::Type => self.kind,
        }
    }

    /// The slots with `text` under the key of `f`.
    pub open spec fn with(self, f: Field, text: Seq<char>) -> Slots {
        match f {
            Field::Target => Slots { target: Some(text), ..self },
            Field::Append => Slots { append: Some(text), ..self },
            Field::Prepend => Slots { prepend: Some(text), ..self },
            Field::Type => Slots { kind: Some(text), ..self },
        }
    }
}

/// Reading one entry of a record: its key has to name a field that was not
/// met before, and its value has to be a string.
pub open spec fn read_field(slots: Slots, entry: RawFieldView) -> Result<Slots, TargetErrorView> {
    match field_of(entry.key) {
        None => Err(TargetErrorView::UnknownField(entry.key)),
        Some(f) => if slots.get(f) is Some {
            Err(TargetErrorView::DuplicateField(f))
        } else {
            match entry.value {
                RawValueView::Text(t) => Ok(slots.with(f, t)),
                RawValueView::Other => Err(TargetErrorView::NotText(f)),
            }
        },
    }
}

/// Reading the first `n` entries of a record in their order, up to the
/// first that cannot be read.
pub open spec fn read_fields(entries: Seq<RawFieldView>, n: nat) -> Result<Slots, TargetErrorView>
    decreases n,
{
    if n == 0 {
        Ok(Slots::none())
    } else {
        match read_fields(entries, (n - 1) as nat) {
            Err(e) => Err(e),
            Ok(slots) => read_field(slots, entries[n - 1]),
        }
    }
}

/// The target that a record stands for once all its entries are read.
pub open spec fn conclude(slots: Slots) -> Result<TargetView, TargetErrorView> {
    match (slots.kind, slots.target) {
        (None, _) => Err(TargetErrorView::MissingField(Field::Type)),
        (Some(_), None) => Err(TargetErrorView::MissingField(Field::Target)),
        (Some(kind), Some(target)) => if kind == "symbolic"@ {
            if slots.append is Some || slots.prepend is Some {
                Err(TargetErrorView::AffixOnSymbolic)
            } else {
                Ok(TargetView::symbolic(target))
            }
        } else if kind == "template"@ {
            Ok(TargetView::template(target, slots.append, slots.prepend))
        } else {
            Err(TargetErrorView::UnknownType(kind))
        },
    }
}

/// The target that a value stands for: a bare string is a plain target at
/// that path; a record is read entry by entry and then concluded.
pub open spec fn parse_result(raw: RawTargetView) -> Result<TargetView, TargetErrorView> {
    match raw {
        RawTargetView::Text(path) => Ok(TargetView::automatic(path)),
        RawTargetView::Other => Err(TargetErrorView::NotStringOrRecord),
        RawTargetView::Record(entries) => match read_fields(entries, entries.len()) {
            Err(e) => Err(e),
            Ok(slots) => conclude(slots),
        },
    }
}

/// The field that `key` names.
fn field_named(key: &str) -> (r: Option<Field>)
    ensures
        r == field_of(key@),
{
    if same_text(key, Field::Target.name()) {
        Some(Field::Target)
    } else if same_text(key, Field::Append.name()) {
        Some(Field::Append)
    } else if same_text(key, Field::Prepend.name()) {
        Some(Field::Prepend)
    } else if same_text(key, Field::Type.name()) {
        Some(Field::Type)
    } else {
        None
    }
}

/// The strings read so far, as the executable code holds them.
struct Read {
    kind: Option<String>,
    target: Option<String>,
    append: Option<String>,
    prepend: Option<String>,
}

impl View for Read {
    type V = Slots;

    closed spec fn view(&self) -> Slots {
        Slots {
            kind: text_view(self.kind),
            target: text_view(self.target),
            append: text_view(self.append),
            prepend: text_view(self.prepend),
        }
    }
}

impl Read {
    fn filled(&self, f: Field) -> (b: bool)
        ensures
            b == (self@.get(f) is Some),
    {
        match f {
            Field::Target => self.target.is_some(),
            Field::Append => self.append.is_some(),
            Field::Prepend => self.prepend.is_some(),
            Field::Type => self.kind.is_some(),
        }
    }

    fn fill(self, f: Field, text: String) -> (out: Read)
        ensures
            out@ == self@.with(f, text@),
    {
        let Read { kind, target, append, prepend } = self;
        match f {
            Field::Target => Read { kind, target: Some(text), append, prepend },
            Field::Append => Read { kind, target, append: Some(text), prepend },
            Field::Prepend => Read { kind, target, append, prepend: Some(text) },
            Field::Type => Read { kind: Some(text), target, append, prepend },
        }
    }
}

impl FileTarget {
    /// Reads a target from the value that a document holds for it.
    pub fn parse(raw: RawTarget) -> (r: Result<FileTarget, TargetError>)
        ensures
            match r {
                Ok(t) => parse_result(raw@) == Ok::<TargetView, TargetErrorView>(t@),
                Err(e) => parse_result(raw@) == Err::<TargetView, TargetErrorView>(e@),
            },
    {
        let entries = match raw {
            RawTarget::Text(path) => {
                return Ok(FileTarget::Automatic(path));
            },
            RawTarget::Other => {
                return Err(TargetError::NotStringOrRecord);
            },
            RawTarget::Record(entries) => entries,
        };
        let ghost all = field_views(entries@);
        let mut read = Read { kind: None, target: None, append: None, prepend: None };
        for entry in it: entries
            invariant
                it.seq() == entries@,
                raw == RawTarget::Record(entries),
                all == field_views(entries@),
                read_fields(all, it.index() as nat) == Ok::<Slots, TargetErrorView>(read@),
        {
            let ghost i = it.index() as int;
            let ghost before = read@;
            let RawField { key, value } = entry;
            proof {
                assert(all[i] == entry@);
                assert(read_fields(all, (i + 1) as nat) == read_field(before, all[i]));
            }
            let field = match field_named(key.as_str()) {
                None => {
                    proof {
                        read_stays_failed(all, (i + 1) as nat);
                    }
                    return Err(TargetError::UnknownField(key));
                },
                Some(field) => field,
            };
            if read.filled(field) {
                proof {
                    read_stays_failed(all, (i + 1) as nat);
                }
                return Err(TargetError::DuplicateField(field));
            }
            match value {
                RawValue::Other => {
                    proof {
                        read_stays_failed(all, (i + 1) as nat);
                    }
                    return Err(TargetError::NotText(field));
                },
                RawValue::Text(text) => {
                    read = read.fill(field, text);
                },
            }
        }
        let Read { kind, target, append, prepend } = read;
        let kind = match kind {
            None => {
                return Err(TargetError::MissingField(Field::Type));
            },
            Some(kind) => kind,
        };
        let target = match target {
            None => {
                return Err(TargetError::MissingField(Field::Target));
            },
            Some(target) => target,
        };
        if same_text(kind.as_str(), "symbolic") {
            if append.is_some() || prepend.is_some() {
                return Err(TargetError::AffixOnSymbolic);
            }
            Ok(FileTarget::Symbolic(target))
        } else if same_text(kind.as_str(), "template") {
            Ok(FileTarget::ComplexTemplate(TemplateTarget { target, append, prepend }))
        } else {
            Err(TargetError::UnknownType(kind))
        }
    }
}

/// Once an entry cannot be read, the entries after it do not matter.
pub proof fn read_stays_failed(entries: Seq<RawFieldView>, n: nat)
    requires
        n <= entries.len(),
        read_fields(entries, n) is Err,
    ensures
        read_fields(entries, entries.len()) == read_fields(entries, n),
    decreases entries.len() - n,
{
    if n < entries.len() {
        read_stays_failed(entries, n + 1);
    }
}

/// Reading a prefix looks at that prefix only.
pub proof fn read_fields_of_prefix(a: Seq<RawFieldView>, b: Seq<RawFieldView>, n: nat)
    requires
        n <= a.len(),
        n <= b.len(),
        forall|i: int| 0 <= i < n ==> a[i] == b[i],
    ensures
        read_fields(a, n) == read_fields(b, n),
    decreases n,
{
    if n > 0 {
        read_fields_of_prefix(a, b, (n - 1) as nat);
    }
}

/// Each of the four keys names its own field, and the two types differ.
pub proof fn keys_name_their_fields()
    ensures
        field_of(Field::Target.key()) == Some(Field::Target),
        field_of(Field::Append.key()) == Some(Field::Append),
        field_of(Field::Prepend.key()) == Some(Field::Prepend),
        field_of(Field::Type.key()) == Some(Field::Type),
        "symbolic"@ != "template"@,
{
    reveal_strlit("target");
    reveal_strlit("append");
    reveal_strlit("prepend");
    reveal_strlit("type");
    reveal_strlit("symbolic");
    reveal_strlit("template");
    assert("target"@[0] == 't' && "append"@[0] == 'a' && "prepend"@[0] == 'p');
    assert("type"@.len() == 4 && "target"@.len() == 6);
    assert("symbolic"@[0] == 's' && "template"@[0] == 't');
}

/// The entry that holds `text` under the key of `f`.
pub open spec fn entry_of(f: Field, text: Seq<char>) -> RawFieldView {
    RawFieldView { key: f.key(), value: RawValueView::Text(text) }
}

/// The entry for an affix, if there is one.
pub open spec fn affix_entry(f: Field, text: Option<Seq<char>>) -> Seq<RawFieldView> {
    match text {
        Some(t) => seq![entry_of(f, t)],
        None => Seq::empty(),
    }
}

/// The value that a document holds for a target: a bare string for a plain
/// target, else a record that starts with its `type`.
pub open spec fn written(t: TargetView) -> RawTargetView {
    match t.kind {
        TargetKind::Automatic => RawTargetView::Text(t.path),
        TargetKind::Symbolic => RawTargetView::Record(
            seq![entry_of(Field::Type, "symbolic"@), entry_of(Field::Target, t.path)],
        ),
        TargetKind::Template => RawTargetView::Record(
            seq![entry_of(Field::Type, "template"@), entry_of(Field::Target, t.path)] + affix_entry(
                Field::Append,
                t.append,
            ) + affix_entry(Field::Prepend, t.prepend),
        ),
    }
}

/// Puts the text `text` under the key of `f` at the end of a record.
fn push_field(entries: &mut Vec<RawField>, f: Field, text: &str)
    ensures
        field_views(final(entries)@) == field_views(old(entries)@).push(entry_of(f, text@)),
{
    let entry = RawField { key: String::from_str(f.name()), value: RawValue::Text(String::from_str(text)) };
    entries.push(entry);
    assert(field_views(entries@) =~= field_views(old(entries)@).push(entry_of(f, text@)));
}

impl FileTarget {
    /// The value that a document holds for this target.
    pub fn to_raw(&self) -> (raw: RawTarget)
        ensures
            raw@ == written(self@),
    {
        let mut entries: Vec<RawField> = Vec::new();
        assert(field_views(entries@) =~= Seq::<RawFieldView>::empty());
        match self {
            FileTarget::Automatic(path) => {
                return RawTarget::Text(path.clone());
            },
            FileTarget::Symbolic(path) => {
                push_field(&mut entries, Field::Type, "symbolic");
                push_field(&mut entries, Field::Target, path.as_str());
                assert(field_views(entries@) =~= seq![
                    entry_of(Field::Type, "symbolic"@),
                    entry_of(Field::Target, path@),
                ]);
            },
            FileTarget::ComplexTemplate(t) => {
                push_field(&mut entries, Field::Type, "template");
                push_field(&mut entries, Field::Target, t.target.as_str());
                let ghost head = field_views(entries@);
                assert(head =~= seq![
                    entry_of(Field::Type, "template"@),
                    entry_of(Field::Target, t.target@),
                ]);
                match &t.append {
                    Some(text) => {
                        push_field(&mut entries, Field::Append, text.as_str());
                    },
                    None => {},
                }
                let ghost middle = field_views(entries@);
                assert(middle =~= head + affix_entry(Field::Append, text_view(t.append)));
                match &t.prepend {
                    Some(text) => {
                        push_field(&mut entries, Field::Prepend, text.as_str());
                    },
                    None => {},
                }
                assert(field_views(entries@) =~= middle + affix_entry(
                    Field::Prepend,
                    text_view(t.prepend),
                ));
            },
        }
        RawTarget::Record(entries)
    }
}

/// Reading one more entry after a prefix that was read.
proof fn read_one_more(entries: Seq<RawFieldView>, slots: Slots, f: Field, text: Seq<char>)
    requires
        read_fields(entries, entries.len()) == Ok::<Slots, TargetErrorView>(slots),
        slots.get(f) is None,
    ensures
        read_fields(entries.push(entry_of(f, text)), entries.len() + 1) == Ok::<
            Slots,
            TargetErrorView,
        >(slots.with(f, text)),
{
    keys_name_their_fields();
    let longer = entries.push(entry_of(f, text));
    read_fields_of_prefix(entries, longer, entries.len());
    assert(longer[entries.len() as int] == entry_of(f, text));
}

/// Reading an affix entry, if there is one.
proof fn read_affix(entries: Seq<RawFieldView>, slots: Slots, f: Field, text: Option<Seq<char>>)
    requires
        read_fields(entries, entries.len()) == Ok::<Slots, TargetErrorView>(slots),
        slots.get(f) is None,
        f == Field::Append || f == Field::Prepend,
    ensures
        read_fields(
            entries + affix_entry(f, text),
            (entries + affix_entry(f, text)).len(),
        ) matches Ok(out) && out == (match text {
            Some(t) => slots.with(f, t),
            None => slots,
        }),
{
    match text {
        Some(t) => {
            read_one_more(entries, slots, f, t);
            assert(entries + affix_entry(f, text) =~= entries.push(entry_of(f, t)));
        },
        None => {
            assert(entries + affix_entry(f, text) =~= entries);
        },
    }
}

/// Writing a target down and reading it again gives the same target: a
/// plain target goes through the bare string, the others through a record
/// with their `type`.
pub proof fn reading_undoes_writing(t: TargetView)
    requires
        t.well_formed(),
    ensures
        parse_result(written(t)) == Ok::<TargetView, TargetErrorView>(t),
        t.kind is Automatic ==> written(t) == RawTargetView::Text(t.path),
{
    keys_name_their_fields();
    let none = Seq::<RawFieldView>::empty();
    assert(read_fields(none, 0) == Ok::<Slots, TargetErrorView>(Slots::none()));
    match t.kind {
        TargetKind::Automatic => {},
        TargetKind::Symbolic => {
            read_one_more(none, Slots::none(), Field::Type, "symbolic"@);
            let one = none.push(entry_of(Field::Type, "symbolic"@));
            read_one_more(one, Slots::none().with(Field::Type, "symbolic"@), Field::Target, t.path);
            assert(one.push(entry_of(Field::Target, t.path)) =~= seq![
                entry_of(Field::Type, "symbolic"@),
                entry_of(Field::Target, t.path),
            ]);
        },
        TargetKind::Template => {
            read_one_more(none, Slots::none(), Field::Type, "template"@);
            let one = none.push(entry_of(Field::Type, "template"@));
            let s1 = Slots::none().with(Field::Type, "template"@);
            read_one_more(one, s1, Field::Target, t.path);
            let two = one.push(entry_of(Field::Target, t.path));
            let s2 = s1.with(Field::Target, t.path);
            assert(two =~= seq![
                entry_of(Field::Type, "template"@),
                entry_of(Field::Target, t.path),
            ]);
            read_affix(two, s2, Field::Append, t.append);
            let three = two + affix_entry(Field::Append, t.append);
            let s3 = match t.append {
                Some(a) => s2.with(Field::Append, a),
                None => s2,
            };
            read_affix(three, s3, Field::Prepend, t.prepend);
        },
    }
}

/// Whatever is read is well formed.
pub proof fn parsed_targets_are_well_formed(raw: RawTargetView)
    ensures
        parse_result(raw) matches Ok(v) ==> v.well_formed(),
{
}

impl TargetErrorView {
    /// The error in words.
    pub open spec fn message(self) -> Seq<char> {
        match self {
            TargetErrorView::NotStringOrRecord => "invalid type: expected a string or a map"@,
            TargetErrorView::UnknownField(k) => "unknown field `"@ + k
                + "`, expected one of `target`, `append`, `prepend`, `type`"@,
            TargetErrorView::DuplicateField(f) => "duplicate field `"@ + f.key() + "`"@,
            TargetErrorView::NotText(f) => "invalid type: expected a string for `"@ + f.key()
                + "`"@,
            TargetErrorView::MissingField(f) => "missing field `"@ + f.key() + "`"@,
            TargetErrorView::AffixOnSymbolic => "invalid use of `append` or `prepend` on a symbolic target"@,
            TargetErrorView::UnknownType(t) => "invalid value: string \""@ + t
                + "\", expected `symbolic` or `template`"@,
        }
    }
}

impl TargetError {
    /// The error in words: it names the key or the value that is at fault,
    /// and what was expected in its place.
    pub fn message(&self) -> (text: String)
        ensures
            text@ == self@.message(),
    {
        match self {
            TargetError::NotStringOrRecord => String::from_str(
                "invalid type: expected a string or a map",
            ),
            TargetError::UnknownField(k) => String::from_str("unknown field `").concat(
                k.as_str(),
            ).concat("`, expected one of `target`, `append`, `prepend`, `type`"),
            TargetError::DuplicateField(f) => String::from_str("duplicate field `").concat(
                f.name(),
            ).concat("`"),
            TargetError::NotText(f) => String::from_str(
                "invalid type: expected a string for `",
            ).concat(f.name()).concat("`"),
            TargetError::MissingField(f) => String::from_str("missing field `").concat(
                f.name(),
            ).concat("`"),
            TargetError::AffixOnSymbolic => String::from_str(
                "invalid use of `append` or `prepend` on a symbolic target",
            ),
            TargetError::UnknownType(t) => String::from_str("invalid value: string \"").concat(
                t.as_str(),
            ).concat("\", expected `symbolic` or `template`"),
        }
    }
}

} // verus!
