//! The schema compiler: from an ordered entry list with options to a
//! [`Plan`], resolving each field's byte order and arguments.

use vstd::prelude::*;
use crate::endian::Endian;
use crate::record::{ArgsPlan, CountExpr, DecodeRule, Directive, EncodeRule, FieldEndian, FieldKind, FieldPlan, Plan, SeqArgsPlan, Step, field_wf};
use crate::value::{Expr, FieldType};

verus! {

/// A byte-order setting, on a record or on a field.
#[derive(Debug, Clone, Copy, PartialEq, Eq, Structural)]
pub enum EndianOption {
    Little,
    Big,
    /// No byte order applies.
    NotApplicable,
    /// The byte order of the enclosing scope.
    Inherit,
}

/// Which procedure an argument assignment is for.
#[derive(Debug, Clone, Copy, PartialEq, Eq, Structural)]
pub enum Direction {
    Encode,
    Decode,
    Both,
}

/// A setter call on a field's argument builder.
#[derive(Debug, PartialEq, Eq)]
pub enum Setter {
    /// The number of elements, or of bytes of a text.
    Count(CountExpr),
    /// One byte order shared by all elements.
    Arg(Endian),
    /// One argument per element.
    Args(Vec<Option<Endian>>),
}

/// An option on a field.
#[derive(Debug, PartialEq, Eq)]
pub enum FieldOption {
    Endian(EndianOption),
    /// Setter calls on the field's builder for one direction, or both. A
    /// direction takes at most one such option: a second one for the same
    /// direction is a duplicate, like any other repeated option.
    Args(Direction, Vec<Setter>),
    /// Replaces decoding the field by computing it.
    Decode(Expr),
    /// Gives a temporary's value when encoding.
    Encode(Expr),
}

/// An option on a record.
#[derive(Debug, PartialEq, Eq)]
pub enum RecordOption {
    Endian(EndianOption),
    /// Declares a parameter that the record itself requires. Not supported.
    ArgsDecl(Direction),
}

/// A field of a schema.
#[derive(Debug, PartialEq, Eq)]
pub struct FieldDecl {
    pub name: String,
    pub kind: FieldKind,
    pub ty: FieldType,
    pub options: Vec<FieldOption>,
}

/// An entry of a schema.
#[derive(Debug, PartialEq, Eq)]
pub enum Entry {
    Directive(Directive),
    Field(FieldDecl),
}

/// A record's layout as written: its entries in order, and its options.
#[derive(Debug, PartialEq, Eq)]
pub struct Schema {
    pub entries: Vec<Entry>,
    pub options: Vec<RecordOption>,
}

/// Why a schema cannot be compiled. Each names the entry position at fault,
/// where there is one.
#[derive(Debug, Clone, Copy, PartialEq, Eq, Structural)]
pub enum SchemaError {
    /// An option kind was given twice.
    DuplicateOption(usize),
    /// The field's byte order setting does not fit its type.
    EndianMismatch(usize),
    /// A setter was called where the builder does not offer it.
    InvalidSetter(usize),
    /// A required argument was never set.
    MissingArgument(usize),
    /// A temporary has no encode option.
    MissingEncode(usize),
    /// A persistent field has an encode option.
    EncodeOnField(usize),
    /// The field's type has no wire form and the field is not computed.
    NoCodec(usize),
    /// Record-level argument declarations are not supported.
    ArgsDeclUnsupported,
    /// A record option was given twice.
    DuplicateRecordOption,
}

impl Direction {
    /// Whether assignments in this direction apply to `d`.
    pub open spec fn applies_to(self, d: Direction) -> bool {
        self == d || self is Both
    }

    /// Appends `items` to the list of each direction it applies to.
    pub fn dispatch(self, encode: &mut Vec<Setter>, decode: &mut Vec<Setter>, items: &Vec<Setter>)
        ensures
            setter_models(final(encode)@) == if self.applies_to(Direction::Encode) {
                setter_models(old(encode)@) + setter_models(items@)
            } else {
                setter_models(old(encode)@)
            },
            setter_models(final(decode)@) == if self.applies_to(Direction::Decode) {
                setter_models(old(decode)@) + setter_models(items@)
            } else {
                setter_models(old(decode)@)
            },
    {
        if matches!(self, Direction::Encode | Direction::Both) {
            append_setters(encode, items);
        }
        if matches!(self, Direction::Decode | Direction::Both) {
            append_setters(decode, items);
        }
    }
}

/// A copy of a setter.
pub fn copy_setter(s: &Setter) -> (r: Setter)
    ensures
        r.model() == s.model(),
{
    match s {
        Setter::Count(c) => Setter::Count(*c),
        Setter::Arg(e) => Setter::Arg(*e),
        Setter::Args(l) => Setter::Args(copy_endians(l)),
    }
}

fn append_setters(to: &mut Vec<Setter>, items: &Vec<Setter>)
    ensures
        setter_models(final(to)@) == setter_models(old(to)@) + setter_models(items@),
{
    let ghost start = to@;
    let mut i: usize = 0;
    while i < items.len()
        invariant
            i <= items@.len(),
            to@.len() == start.len() + i,
            forall|k: int| 0 <= k < start.len() ==> to@[k] == start[k],
            forall|j: int| start.len() <= j < to@.len() ==> (#[trigger] to@[j]).model() == items@[j - start.len()].model(),
        decreases items@.len() - i,
    {
        to.push(copy_setter(&items[i]));
        i = i + 1;
    }
    assert(setter_models(to@) =~= setter_models(start) + setter_models(items@));
}

/// The contents of the setters.
pub open spec fn setter_models(v: Seq<Setter>) -> Seq<SetterModel> {
    v.map_values(|s: Setter| s.model())
}

/// The content of a setter.
pub enum SetterModel {
    Count(CountExpr),
    Arg(Endian),
    Args(Seq<Option<Endian>>),
}

impl Setter {
    pub open spec fn model(&self) -> SetterModel {
        match self {
            Setter::Count(c) => SetterModel::Count(*c),
            Setter::Arg(e) => SetterModel::Arg(*e),
            Setter::Args(l) => SetterModel::Args(l@),
        }
    }
}

/// The state of a field's argument builder.
pub enum ArgModel {
    /// The type takes no arguments.
    NoArgs,
    /// A sequence whose element arguments are still required.
    SeqRequired,
    /// A number of elements, each with the same argument.
    SeqCounted(CountExpr, Option<Endian>),
    /// One argument per element.
    SeqListed(Seq<Option<Endian>>),
    /// The same argument for any number of elements.
    SeqRepeat(Option<Endian>),
    /// A text whose length is still required.
    TextRequired,
    /// A text of a given length.
    TextCounted(CountExpr),
    /// A setter was called that the builder does not offer.
    Invalid,
}

/// The builder state a type starts from: decoding a sequence or a text needs
/// a length; encoding a sequence hands a unit argument to each element.
pub open spec fn initial_args(ty: FieldType, decode: bool) -> ArgModel {
    match ty {
        FieldType::Sequence(_) => if decode {
            ArgModel::SeqRequired
        } else {
            ArgModel::SeqRepeat(None)
        },
        FieldType::Text => if decode {
            ArgModel::TextRequired
        } else {
            ArgModel::NoArgs
        },
        _ => ArgModel::NoArgs,
    }
}

/// One setter call: `count` only where the length is still required, `arg`
/// only where each element has a unit argument, `args` on any sequence.
pub open spec fn apply_setter(m: ArgModel, s: SetterModel) -> ArgModel {
    match (m, s) {
        (ArgModel::SeqRequired, SetterModel::Count(c)) => ArgModel::SeqCounted(c, None),
        (ArgModel::SeqCounted(c, None), SetterModel::Arg(e)) => ArgModel::SeqCounted(c, Some(e)),
        (ArgModel::SeqRepeat(None), SetterModel::Arg(e)) => ArgModel::SeqRepeat(Some(e)),
        (ArgModel::SeqRequired, SetterModel::Args(l)) => ArgModel::SeqListed(l),
        (ArgModel::SeqCounted(_, _), SetterModel::Args(l)) => ArgModel::SeqListed(l),
        (ArgModel::SeqListed(_), SetterModel::Args(l)) => ArgModel::SeqListed(l),
        (ArgModel::SeqRepeat(_), SetterModel::Args(l)) => ArgModel::SeqListed(l),
        (ArgModel::TextRequired, SetterModel::Count(c)) => ArgModel::TextCounted(c),
        _ => ArgModel::Invalid,
    }
}

/// The setter calls in order.
pub open spec fn apply_setters(m: ArgModel, s: Seq<SetterModel>) -> ArgModel
    decreases s.len(),
{
    if s.len() == 0 {
        m
    } else {
        apply_setter(apply_setters(m, s.drop_last()), s.last())
    }
}

/// Whether the builder can be finished: no required argument is unset.
pub open spec fn finished(m: ArgModel) -> bool {
    match m {
        ArgModel::NoArgs | ArgModel::SeqCounted(_, _) | ArgModel::SeqListed(_) | ArgModel::SeqRepeat(_)
        | ArgModel::TextCounted(_) => true,
        _ => false,
    }
}

impl ArgsPlan {
    /// The builder state that the finished arguments come from.
    pub open spec fn model(&self) -> ArgModel {
        match self {
            ArgsPlan::NoArgs => ArgModel::NoArgs,
            ArgsPlan::Sequence(SeqArgsPlan::Counted(c, x)) => ArgModel::SeqCounted(*c, *x),
            ArgsPlan::Sequence(SeqArgsPlan::Listed(l)) => ArgModel::SeqListed(l@),
            ArgsPlan::Sequence(SeqArgsPlan::Repeat(x)) => ArgModel::SeqRepeat(*x),
            ArgsPlan::Text(c) => ArgModel::TextCounted(*c),
        }
    }
}

/// Whether a builder state fits a type in a direction.
pub open spec fn shape_fits(m: ArgModel, ty: FieldType, decode: bool) -> bool {
    match ty {
        FieldType::Sequence(_) => if decode {
            m is SeqRequired || m is SeqCounted || m is SeqListed || m is Invalid
        } else {
            m is SeqRepeat || m is SeqListed || m is Invalid
        },
        FieldType::Text => if decode {
            m is TextRequired || m is TextCounted || m is Invalid
        } else {
            m is NoArgs || m is Invalid
        },
        _ => m is NoArgs || m is Invalid,
    }
}

/// Setter calls never leave the states of the type.
pub proof fn lemma_setters_shape(ty: FieldType, decode: bool, s: Seq<SetterModel>)
    ensures
        shape_fits(apply_setters(initial_args(ty, decode), s), ty, decode),
    decreases s.len(),
{
    if s.len() > 0 {
        lemma_setters_shape(ty, decode, s.drop_last());
    }
}

/// The options of a field, gathered in order.
pub struct Gathered {
    pub endian: Option<EndianOption>,
    pub decode: Option<Expr>,
    pub encode: Option<Expr>,
    pub enc: Seq<SetterModel>,
    pub dec: Seq<SetterModel>,
    pub args_enc: bool,
    pub args_dec: bool,
    /// An option kind was given twice.
    pub dup: bool,
}

/// Adds one option: setters accumulate per direction; a second option of a
/// kind already given is a duplicate.
pub open spec fn gather_one(g: Gathered, o: FieldOption) -> Gathered {
    match o {
        FieldOption::Endian(e) => Gathered { endian: Some(e), dup: g.dup || g.endian is Some, ..g },
        FieldOption::Decode(x) => Gathered { decode: Some(x), dup: g.dup || g.decode is Some, ..g },
        FieldOption::Encode(x) => Gathered { encode: Some(x), dup: g.dup || g.encode is Some, ..g },
        FieldOption::Args(d, l) => {
            let e = d.applies_to(Direction::Encode);
            let de = d.applies_to(Direction::Decode);
            Gathered {
                enc: if e { g.enc + setter_models(l@) } else { g.enc },
                dec: if de { g.dec + setter_models(l@) } else { g.dec },
                args_enc: g.args_enc || e,
                args_dec: g.args_dec || de,
                dup: g.dup || (e && g.args_enc) || (de && g.args_dec),
                ..g
            }
        },
    }
}

/// The options, gathered in order.
pub open spec fn gather(opts: Seq<FieldOption>) -> Gathered
    decreases opts.len(),
{
    if opts.len() == 0 {
        Gathered {
            endian: None,
            decode: None,
            encode: None,
            enc: Seq::empty(),
            dec: Seq::empty(),
            args_enc: false,
            args_dec: false,
            dup: false,
        }
    } else {
        gather_one(gather(opts.drop_last()), opts.last())
    }
}

/// The byte order that a record puts in scope for its fields.
pub open spec fn scope_of(record: Option<EndianOption>) -> Option<FieldEndian> {
    match record {
        Some(EndianOption::Little) => Some(FieldEndian::Fixed(Endian::Little)),
        Some(EndianOption::Big) => Some(FieldEndian::Fixed(Endian::Big)),
        Some(EndianOption::Inherit) => Some(FieldEndian::Scope),
        _ => None,
    }
}

/// A field's byte order: its own setting, else the record's where the type
/// needs one, else none. `None` where the setting and the type disagree.
pub open spec fn resolve_endian(local: Option<EndianOption>, record: Option<EndianOption>, needs: bool) -> Option<FieldEndian> {
    let chosen = match local {
        Some(EndianOption::Little) => Some(FieldEndian::Fixed(Endian::Little)),
        Some(EndianOption::Big) => Some(FieldEndian::Fixed(Endian::Big)),
        Some(EndianOption::NotApplicable) => None,
        Some(EndianOption::Inherit) => scope_of(record),
        None => if needs {
            scope_of(record)
        } else {
            None
        },
    };
    match chosen {
        Some(e) => if needs {
            Some(e)
        } else {
            None
        },
        None => if needs {
            None
        } else {
            Some(FieldEndian::NotApplicable)
        },
    }
}

/// Whether a field compiles in a record with the given byte-order option.
pub open spec fn field_compiles(fd: FieldDecl, record: Option<EndianOption>) -> bool {
    let g = gather(fd.options@);
    &&& !g.dup
    &&& resolve_endian(g.endian, record, fd.ty.needs_endian()) is Some
    &&& fd.kind is Temporary ==> g.encode is Some
    &&& fd.kind is Persistent ==> g.encode is None
    &&& g.decode is None ==> fd.ty.has_codec() && finished(apply_setters(initial_args(fd.ty, true), g.dec))
        && finished(apply_setters(initial_args(fd.ty, false), g.enc))
}

/// Whether `fp` is what a field compiles to.
pub open spec fn compiled_field(fd: FieldDecl, record: Option<EndianOption>, fp: FieldPlan) -> bool {
    let g = gather(fd.options@);
    &&& fp.kind == fd.kind
    &&& fp.ty == fd.ty
    &&& resolve_endian(g.endian, record, fd.ty.needs_endian()) == Some(fp.endian)
    &&& fp.compute == if fd.kind is Temporary { g.encode } else { None }
    &&& match g.decode {
        Some(e) => fp.decode == DecodeRule::Override(e) && fp.encode == EncodeRule::Skip,
        None => (fp.decode matches DecodeRule::Codec(a) && a.model() == apply_setters(initial_args(fd.ty, true), g.dec))
            && (fp.encode matches EncodeRule::Codec(b) && b.model() == apply_setters(initial_args(fd.ty, false), g.enc)),
    }
}

/// Whether a step is what an entry compiles to.
pub open spec fn compiled_entry(e: Entry, record: Option<EndianOption>, s: Step) -> bool {
    match (e, s) {
        (Entry::Directive(Directive::Magic(m)), Step::Directive(Directive::Magic(n))) => m@ == n@,
        (Entry::Directive(Directive::Pad(m)), Step::Directive(Directive::Pad(n))) => m == n,
        (Entry::Field(fd), Step::Field(fp)) => compiled_field(fd, record, fp),
        _ => false,
    }
}

pub open spec fn entry_compiles(e: Entry, record: Option<EndianOption>) -> bool {
    e matches Entry::Field(fd) ==> field_compiles(fd, record)
}

/// The record options, gathered: the byte order, whether an argument
/// declaration is present, and whether an option was given twice.
pub open spec fn gather_record(opts: Seq<RecordOption>) -> (Option<EndianOption>, bool, bool)
    decreases opts.len(),
{
    if opts.len() == 0 {
        (None, false, false)
    } else {
        let (e, a, d) = gather_record(opts.drop_last());
        match opts.last() {
            RecordOption::Endian(x) => (Some(x), a, d || e is Some),
            RecordOption::ArgsDecl(_) => (e, true, d),
        }
    }
}

impl Schema {
    /// Whether the schema compiles.
    pub open spec fn compiles(&self) -> bool {
        let (_, decl, dup) = gather_record(self.options@);
        &&& !decl
        &&& !dup
        &&& forall|i: int| 0 <= i < self.entries@.len() ==> entry_compiles(#[trigger] self.entries@[i], gather_record(self.options@).0)
    }
}

/// Every compiled field is consistent.
pub proof fn lemma_compiled_field_wf(fd: FieldDecl, record: Option<EndianOption>, fp: FieldPlan)
    requires
        field_compiles(fd, record),
        compiled_field(fd, record, fp),
    ensures
        field_wf(fp, record == Some(EndianOption::Inherit)),
{
    let g = gather(fd.options@);
    lemma_setters_shape(fd.ty, true, g.dec);
    lemma_setters_shape(fd.ty, false, g.enc);
}

/// The options of a field, gathered, as executable values.
struct GatheredExec {
    endian: Option<EndianOption>,
    decode: Option<Expr>,
    encode: Option<Expr>,
    enc: Vec<Setter>,
    dec: Vec<Setter>,
    args_enc: bool,
    args_dec: bool,
    dup: bool,
}

impl GatheredExec {
    spec fn model(&self) -> Gathered {
        Gathered {
            endian: self.endian,
            decode: self.decode,
            encode: self.encode,
            enc: setter_models(self.enc@),
            dec: setter_models(self.dec@),
            args_enc: self.args_enc,
            args_dec: self.args_dec,
            dup: self.dup,
        }
    }
}

fn gather_options(opts: &Vec<FieldOption>) -> (r: GatheredExec)
    ensures
        r.model() == gather(opts@),
{
    let mut g = GatheredExec {
        endian: None,
        decode: None,
        encode: None,
        enc: Vec::new(),
        dec: Vec::new(),
        args_enc: false,
        args_dec: false,
        dup: false,
    };
    assert(setter_models(g.enc@) =~= Seq::<SetterModel>::empty());
    assert(setter_models(g.dec@) =~= Seq::<SetterModel>::empty());
    assert(opts@.subrange(0, 0).len() == 0);
    assert(g.model() == gather(opts@.subrange(0, 0)));
    let mut i: usize = 0;
    while i < opts.len()
        invariant
            i <= opts@.len(),
            g.model() == gather(opts@.subrange(0, i as int)),
        decreases opts@.len() - i,
    {
        assert(opts@.subrange(0, i + 1).drop_last() =~= opts@.subrange(0, i as int));
        assert(opts@.subrange(0, i + 1).last() == opts@[i as int]);
        match &opts[i] {
            FieldOption::Endian(e) => {
                g.dup = g.dup || g.endian.is_some();
                g.endian = Some(*e);
            },
            FieldOption::Decode(x) => {
                g.dup = g.dup || g.decode.is_some();
                g.decode = Some(*x);
            },
            FieldOption::Encode(x) => {
                g.dup = g.dup || g.encode.is_some();
                g.encode = Some(*x);
            },
            FieldOption::Args(d, l) => {
                let e = matches!(d, Direction::Encode | Direction::Both);
                let de = matches!(d, Direction::Decode | Direction::Both);
                g.dup = g.dup || (e && g.args_enc) || (de && g.args_dec);
                g.args_enc = g.args_enc || e;
                g.args_dec = g.args_dec || de;
                d.dispatch(&mut g.enc, &mut g.dec, l);
            },
        }
        i = i + 1;
    }
    assert(opts@.subrange(0, opts@.len() as int) =~= opts@);
    g
}

/// A field's builder state, as an executable value.
enum ArgState {
    NoArgs,
    SeqRequired,
    SeqCounted(CountExpr, Option<Endian>),
    SeqListed(Vec<Option<Endian>>),
    SeqRepeat(Option<Endian>),
    TextRequired,
    TextCounted(CountExpr),
    Invalid,
}

impl ArgState {
    spec fn model(&self) -> ArgModel {
        match self {
            ArgState::NoArgs => ArgModel::NoArgs,
            ArgState::SeqRequired => ArgModel::SeqRequired,
            ArgState::SeqCounted(c, x) => ArgModel::SeqCounted(*c, *x),
            ArgState::SeqListed(l) => ArgModel::SeqListed(l@),
            ArgState::SeqRepeat(x) => ArgModel::SeqRepeat(*x),
            ArgState::TextRequired => ArgModel::TextRequired,
            ArgState::TextCounted(c) => ArgModel::TextCounted(*c),
            ArgState::Invalid => ArgModel::Invalid,
        }
    }
}

fn copy_endians(l: &Vec<Option<Endian>>) -> (r: Vec<Option<Endian>>)
    ensures
        r@ == l@,
{
    vstd::slice::slice_to_vec(l.as_slice())
}

fn apply_setter_exec(m: ArgState, s: &Setter) -> (r: ArgState)
    ensures
        r.model() == apply_setter(m.model(), s.model()),
{
    match (m, s) {
        (ArgState::SeqRequired, Setter::Count(c)) => ArgState::SeqCounted(*c, None),
        (ArgState::SeqCounted(c, None), Setter::Arg(e)) => ArgState::SeqCounted(c, Some(*e)),
        (ArgState::SeqRepeat(None), Setter::Arg(e)) => ArgState::SeqRepeat(Some(*e)),
        (ArgState::SeqRequired, Setter::Args(l)) => ArgState::SeqListed(copy_endians(l)),
        (ArgState::SeqCounted(_, _), Setter::Args(l)) => ArgState::SeqListed(copy_endians(l)),
        (ArgState::SeqListed(_), Setter::Args(l)) => ArgState::SeqListed(copy_endians(l)),
        (ArgState::SeqRepeat(_), Setter::Args(l)) => ArgState::SeqListed(copy_endians(l)),
        (ArgState::TextRequired, Setter::Count(c)) => ArgState::TextCounted(*c),
        _ => ArgState::Invalid,
    }
}

/// Runs the setters on the type's initial builder state.
fn run_setters(ty: FieldType, decode: bool, setters: &Vec<Setter>) -> (r: ArgState)
    ensures
        r.model() == apply_setters(initial_args(ty, decode), setter_models(setters@)),
{
    let mut st = match ty {
        FieldType::Sequence(_) => if decode {
            ArgState::SeqRequired
        } else {
            ArgState::SeqRepeat(None)
        },
        FieldType::Text => if decode {
            ArgState::TextRequired
        } else {
            ArgState::NoArgs
        },
        _ => ArgState::NoArgs,
    };
    let ghost ms = setter_models(setters@);
    let mut i: usize = 0;
    assert(ms.subrange(0, 0) =~= Seq::<SetterModel>::empty());
    while i < setters.len()
        invariant
            i <= setters@.len(),
            ms == setter_models(setters@),
            st.model() == apply_setters(initial_args(ty, decode), ms.subrange(0, i as int)),
        decreases setters@.len() - i,
    {
        assert(ms.subrange(0, i + 1).drop_last() =~= ms.subrange(0, i as int));
        st = apply_setter_exec(st, &setters[i]);
        i = i + 1;
    }
    assert(ms.subrange(0, ms.len() as int) =~= ms);
    st
}

/// The finished arguments, where no required argument is unset.
fn finish_state(st: ArgState) -> (r: Option<ArgsPlan>)
    ensures
        r is Some <==> finished(st.model()),
        r matches Some(a) ==> a.model() == st.model(),
{
    match st {
        ArgState::NoArgs => Some(ArgsPlan::NoArgs),
        ArgState::SeqCounted(c, x) => Some(ArgsPlan::Sequence(SeqArgsPlan::Counted(c, x))),
        ArgState::SeqListed(l) => Some(ArgsPlan::Sequence(SeqArgsPlan::Listed(l))),
        ArgState::SeqRepeat(x) => Some(ArgsPlan::Sequence(SeqArgsPlan::Repeat(x))),
        ArgState::TextCounted(c) => Some(ArgsPlan::Text(c)),
        _ => None,
    }
}

fn resolve_endian_exec(local: Option<EndianOption>, record: Option<EndianOption>, needs: bool) -> (r: Option<FieldEndian>)
    ensures
        r == resolve_endian(local, record, needs),
{
    let scope = match record {
        Some(EndianOption::Little) => Some(FieldEndian::Fixed(Endian::Little)),
        Some(EndianOption::Big) => Some(FieldEndian::Fixed(Endian::Big)),
        Some(EndianOption::Inherit) => Some(FieldEndian::Scope),
        _ => None,
    };
    let chosen = match local {
        Some(EndianOption::Little) => Some(FieldEndian::Fixed(Endian::Little)),
        Some(EndianOption::Big) => Some(FieldEndian::Fixed(Endian::Big)),
        Some(EndianOption::NotApplicable) => None,
        Some(EndianOption::Inherit) => scope,
        None => if needs {
            scope
        } else {
            None
        },
    };
    match chosen {
        Some(e) => if needs {
            Some(e)
        } else {
            None
        },
        None => if needs {
            None
        } else {
            Some(FieldEndian::NotApplicable)
        },
    }
}

/// Compiles one field: checks its options, resolves its byte order, and
/// finishes its argument builders. `at` is its entry position.
pub fn compile_field(fd: &FieldDecl, record: Option<EndianOption>, at: usize) -> (r: Result<FieldPlan, SchemaError>)
    ensures
        r is Ok <==> field_compiles(*fd, record),
        r matches Ok(fp) ==> compiled_field(*fd, record, fp),
        r matches Err(e) ==> e == SchemaError::DuplicateOption(at) || e == SchemaError::EndianMismatch(at)
            || e == SchemaError::MissingEncode(at) || e == SchemaError::EncodeOnField(at)
            || e == SchemaError::NoCodec(at) || e == SchemaError::InvalidSetter(at)
            || e == SchemaError::MissingArgument(at),
{
    let g = gather_options(&fd.options);
    if g.dup {
        return Err(SchemaError::DuplicateOption(at));
    }
    let endian = match resolve_endian_exec(g.endian, record, fd.ty.requires_endian()) {
        Some(e) => e,
        None => {
            return Err(SchemaError::EndianMismatch(at));
        },
    };
    let temporary = matches!(fd.kind, FieldKind::Temporary);
    if temporary && g.encode.is_none() {
        return Err(SchemaError::MissingEncode(at));
    }
    if !temporary && g.encode.is_some() {
        return Err(SchemaError::EncodeOnField(at));
    }
    let compute = if temporary {
        g.encode
    } else {
        None
    };
    match g.decode {
        Some(e) => Ok(FieldPlan {
            kind: fd.kind,
            ty: fd.ty,
            endian,
            decode: DecodeRule::Override(e),
            encode: EncodeRule::Skip,
            compute,
        }),
        None => {
            if matches!(fd.ty, FieldType::Pairs(_, _)) {
                return Err(SchemaError::NoCodec(at));
            }
            let dec_state = run_setters(fd.ty, true, &g.dec);
            let dec_invalid = matches!(dec_state, ArgState::Invalid);
            let dec = match finish_state(dec_state) {
                Some(a) => a,
                None => {
                    return Err(
                        if dec_invalid {
                            SchemaError::InvalidSetter(at)
                        } else {
                            SchemaError::MissingArgument(at)
                        },
                    );
                },
            };
            let enc_state = run_setters(fd.ty, false, &g.enc);
            let enc_invalid = matches!(enc_state, ArgState::Invalid);
            let enc = match finish_state(enc_state) {
                Some(a) => a,
                None => {
                    return Err(
                        if enc_invalid {
                            SchemaError::InvalidSetter(at)
                        } else {
                            SchemaError::MissingArgument(at)
                        },
                    );
                },
            };
            Ok(FieldPlan {
                kind: fd.kind,
                ty: fd.ty,
                endian,
                decode: DecodeRule::Codec(dec),
                encode: EncodeRule::Codec(enc),
                compute,
            })
        },
    }
}

impl SchemaError {
    /// The entry position the error names, if any.
    pub open spec fn position(self) -> Option<usize> {
        match self {
            SchemaError::DuplicateOption(i) | SchemaError::EndianMismatch(i) | SchemaError::InvalidSetter(i)
            | SchemaError::MissingArgument(i) | SchemaError::MissingEncode(i) | SchemaError::EncodeOnField(i)
            | SchemaError::NoCodec(i) => Some(i),
            _ => None,
        }
    }
}

fn gather_record_exec(opts: &Vec<RecordOption>) -> (r: (Option<EndianOption>, bool, bool))
    ensures
        r == gather_record(opts@),
{
    let mut e: Option<EndianOption> = None;
    let mut a = false;
    let mut d = false;
    let mut i: usize = 0;
    assert(opts@.subrange(0, 0) =~= Seq::<RecordOption>::empty());
    while i < opts.len()
        invariant
            i <= opts@.len(),
            (e, a, d) == gather_record(opts@.subrange(0, i as int)),
        decreases opts@.len() - i,
    {
        assert(opts@.subrange(0, i + 1).drop_last() =~= opts@.subrange(0, i as int));
        assert(opts@.subrange(0, i + 1).last() == opts@[i as int]);
        match &opts[i] {
            RecordOption::Endian(x) => {
                d = d || e.is_some();
                e = Some(*x);
            },
            RecordOption::ArgsDecl(_) => {
                a = true;
            },
        }
        i = i + 1;
    }
    assert(opts@.subrange(0, opts@.len() as int) =~= opts@);
    (e, a, d)
}

impl Schema {
    /// The record's byte-order option.
    pub open spec fn record_endian(&self) -> Option<EndianOption> {
        gather_record(self.options@).0
    }

    /// Compiles the schema into a plan. Fails before any byte is read or
    /// written: on a duplicate option, a byte-order setting that does not fit
    /// a field's type, a setter the builder does not offer, an argument left
    /// unset, a temporary without an encode option, or a record-level
    /// argument declaration.
    pub fn compile(&self) -> (r: Result<Plan, SchemaError>)
        ensures
            r is Ok <==> self.compiles(),
            r matches Ok(p) ==> {
                &&& p.wf()
                &&& p.scoped == (self.record_endian() == Some(EndianOption::Inherit))
                &&& p.steps@.len() == self.entries@.len()
                &&& forall|i: int| 0 <= i < p.steps@.len() ==> compiled_entry(
                    #[trigger] self.entries@[i],
                    self.record_endian(),
                    p.steps@[i],
                )
            },
            r == Err::<Plan, SchemaError>(SchemaError::ArgsDeclUnsupported) ==> gather_record(self.options@).1,
            r == Err::<Plan, SchemaError>(SchemaError::DuplicateRecordOption) ==> gather_record(self.options@).2,
            r matches Err(e) ==> (e.position() matches Some(i) ==> i < self.entries@.len() && !entry_compiles(
                self.entries@[i as int],
                self.record_endian(),
            )),
    {
        let (record, decl, dup) = gather_record_exec(&self.options);
        if decl {
            return Err(SchemaError::ArgsDeclUnsupported);
        }
        if dup {
            return Err(SchemaError::DuplicateRecordOption);
        }
        let scoped = matches!(record, Some(EndianOption::Inherit));
        let mut steps: Vec<Step> = Vec::new();
        let mut i: usize = 0;
        while i < self.entries.len()
            invariant
                i <= self.entries@.len(),
                record == self.record_endian(),
                !gather_record(self.options@).1,
                !gather_record(self.options@).2,
                scoped == (record == Some(EndianOption::Inherit)),
                steps@.len() == i,
                forall|k: int| 0 <= k < i ==> entry_compiles(#[trigger] self.entries@[k], record),
                forall|k: int| 0 <= k < i ==> compiled_entry(#[trigger] self.entries@[k], record, steps@[k]),
                forall|k: int| 0 <= k < i ==> (#[trigger] steps@[k] matches Step::Field(f) ==> field_wf(f, scoped)),
            decreases self.entries@.len() - i,
        {
            let step = match &self.entries[i] {
                Entry::Directive(Directive::Magic(m)) => Step::Directive(Directive::Magic(copy_bytes(m))),
                Entry::Directive(Directive::Pad(n)) => Step::Directive(Directive::Pad(*n)),
                Entry::Field(fd) => match compile_field(fd, record, i) {
                    Ok(fp) => {
                        proof {
                            lemma_compiled_field_wf(*fd, record, fp);
                        }
                        Step::Field(fp)
                    },
                    Err(e) => {
                        assert(e.position() == Some(i));
                        assert(!entry_compiles(self.entries@[i as int], record));
                        return Err(e);
                    },
                },
            };
            steps.push(step);
            i = i + 1;
        }
        let p = Plan { steps, scoped };
        assert(forall|k: int| 0 <= k < self.entries@.len() ==> entry_compiles(#[trigger] self.entries@[k], record));
        Ok(p)
    }
}

fn copy_bytes(b: &Vec<u8>) -> (r: Vec<u8>)
    ensures
        r@ == b@,
{
    vstd::slice::slice_to_vec(b.as_slice())
}

} // verus!
