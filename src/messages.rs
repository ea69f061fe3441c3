use vstd::prelude::*;

verus! {

/// The fields of a message variant.
pub enum Fields {
    /// Named fields, in declaration order.
    Named(Vec<String>),
    /// This many positional fields.
    Unnamed(usize),
    Unit,
}

/// One variant of a message enum.
pub struct Variant {
    pub ident: String,
    /// The paths of the attributes on the variant; a single one names the handler.
    pub attrs: Vec<String>,
    pub fields: Fields,
    /// The variant carries an explicit discriminant.
    pub discriminant: bool,
}

/// A message enum.
pub struct MsgEnum {
    pub ident: String,
    pub variants: Vec<Variant>,
}

/// The shape of a dispatch pattern.
#[derive(Clone, Copy, Debug, PartialEq, Eq, Structural)]
pub enum Shape {
    Named,
    Unnamed,
    Unit,
}

/// A binding of the pattern, forwarded to the handler.
pub enum Arg {
    /// A named field, bound under its own name.
    Field(String),
    /// The positional field at this index.
    Index(usize),
}

/// One dispatch arm: the variant's pattern and the handler it calls with the
/// bound fields, in order, between the component and its address.
pub struct Arm {
    pub variant: String,
    pub func: String,
    pub shape: Shape,
    pub args: Vec<Arg>,
}

/// An explicit discriminant on the variant at this index.
#[derive(Clone, Copy, Debug, PartialEq, Eq, Structural)]
pub enum MsgError {
    Discriminant(usize),
}

/// The snake-case form of an identifier, as heck computes it.
pub uninterp spec fn snake_case_of(s: Seq<char>) -> Seq<char>;

/// Relies on heck's `ToSnakeCase::to_snake_case` for `str`: the result
/// depends on the characters alone.
#[verifier::external_body]
fn to_snake_case(s: &str) -> (r: String)
    ensures
        r@ == snake_case_of(s@),
{
    heck::ToSnakeCase::to_snake_case(s)
}

pub open spec fn shape_of(f: Fields) -> Shape {
    match f {
        Fields::Named(_) => Shape::Named,
        Fields::Unnamed(_) => Shape::Unnamed,
        Fields::Unit => Shape::Unit,
    }
}

pub open spec fn field_count(f: Fields) -> nat {
    match f {
        Fields::Named(names) => names@.len(),
        Fields::Unnamed(n) => n as nat,
        Fields::Unit => 0,
    }
}

/// `a` forwards the `i`-th field of `f`.
pub open spec fn forwards(a: Arg, f: Fields, i: int) -> bool {
    match f {
        Fields::Named(names) => a matches Arg::Field(n) && n@ == names@[i]@,
        Fields::Unnamed(_) => a == Arg::Index(i as usize),
        Fields::Unit => false,
    }
}

/// The handler's name: the single attribute's path, else the derived name.
pub open spec fn handler_of(v: Variant, derived: Seq<char>) -> Seq<char> {
    if v.attrs@.len() == 1 {
        v.attrs@[0]@
    } else {
        derived
    }
}

pub open spec fn arm_of(a: Arm, v: Variant, derived: Seq<char>) -> bool {
    &&& a.variant@ == v.ident@
    &&& a.func@ == handler_of(v, derived)
    &&& a.shape == shape_of(v.fields)
    &&& a.args@.len() == field_count(v.fields)
    &&& forall|i: int| 0 <= i < a.args@.len() ==> forwards(#[trigger] a.args@[i], v.fields, i)
}

/// The `i`-th named field of `a` and of `b` agree.
pub open spec fn same_field(a: Fields, b: Fields, i: int) -> bool {
    match (a, b) {
        (Fields::Named(x), Fields::Named(y)) => x@[i]@ == y@[i]@,
        _ => true,
    }
}

pub open spec fn has_discriminant(e: Seq<Variant>) -> bool {
    exists|i: int| 0 <= i < e.len() && (#[trigger] e[i]).discriminant
}

/// The variant as it stands in the enum that is handed on: the attribute
/// that named the handler is taken off.
pub open spec fn rewritten(out: Variant, v: Variant) -> bool {
    &&& out.ident@ == v.ident@
    &&& out.attrs@.len() == if v.attrs@.len() == 1 {
        0
    } else {
        v.attrs@.len()
    }
    &&& forall|i: int| 0 <= i < out.attrs@.len() ==> (#[trigger] out.attrs@[i])@ == v.attrs@[i]@
    &&& shape_of(out.fields) == shape_of(v.fields)
    &&& field_count(out.fields) == field_count(v.fields)
    &&& forall|i: int| 0 <= i < field_count(v.fields) ==> #[trigger] same_field(out.fields, v.fields, i)
    &&& out.discriminant == v.discriminant
}

fn clone_strings(s: &Vec<String>) -> (r: Vec<String>)
    ensures
        r@.len() == s@.len(),
        forall|i: int| 0 <= i < s@.len() ==> (#[trigger] r@[i])@ == s@[i]@,
{
    let mut out: Vec<String> = Vec::new();
    let mut i: usize = 0;
    while i < s.len()
        invariant
            0 <= i <= s@.len(),
            out@.len() == i,
            forall|k: int| 0 <= k < i ==> (#[trigger] out@[k])@ == s@[k]@,
        decreases s@.len() - i,
    {
        out.push(s[i].clone());
        i += 1;
    }
    out
}

fn clone_fields(f: &Fields) -> (r: Fields)
    ensures
        shape_of(r) == shape_of(*f),
        field_count(r) == field_count(*f),
        forall|i: int| 0 <= i < field_count(*f) ==> #[trigger] same_field(r, *f, i),
{
    match f {
        Fields::Named(names) => Fields::Named(clone_strings(names)),
        Fields::Unnamed(n) => Fields::Unnamed(*n),
        Fields::Unit => Fields::Unit,
    }
}

/// The bindings that a pattern over `f` introduces, in order.
pub fn fields_to_args(f: &Fields) -> (r: Vec<Arg>)
    ensures
        r@.len() == field_count(*f),
        forall|i: int| 0 <= i < r@.len() ==> forwards(#[trigger] r@[i], *f, i),
{
    let mut out: Vec<Arg> = Vec::new();
    match f {
        Fields::Named(names) => {
            let mut i: usize = 0;
            while i < names.len()
                invariant
                    0 <= i <= names@.len(),
                    *f == Fields::Named(*names),
                    out@.len() == i,
                    forall|k: int| 0 <= k < i ==> forwards(#[trigger] out@[k], *f, k),
                decreases names@.len() - i,
            {
                out.push(Arg::Field(names[i].clone()));
                i += 1;
            }
        },
        Fields::Unnamed(n) => {
            let mut i: usize = 0;
            while i < *n
                invariant
                    0 <= i <= *n,
                    *f == Fields::Unnamed(*n),
                    out@.len() == i,
                    forall|k: int| 0 <= k < i ==> forwards(#[trigger] out@[k], *f, k),
                decreases *n - i,
            {
                out.push(Arg::Index(i));
                i += 1;
            }
        },
        Fields::Unit => {},
    }
    out
}

/// The dispatch arm of `v`, given the snake-case form of its identifier.
pub fn build_arm(v: &Variant, snake: String) -> (r: Arm)
    ensures
        arm_of(r, *v, snake@),
{
    let func = if v.attrs.len() == 1 {
        v.attrs[0].clone()
    } else {
        snake
    };
    Arm { variant: v.ident.clone(), func, shape: shape_of_exec(&v.fields), args: fields_to_args(&v.fields) }
}

fn shape_of_exec(f: &Fields) -> (r: Shape)
    ensures
        r == shape_of(*f),
{
    match f {
        Fields::Named(_) => Shape::Named,
        Fields::Unnamed(_) => Shape::Unnamed,
        Fields::Unit => Shape::Unit,
    }
}

/// One dispatch arm per variant, in order, each calling the handler that a
/// single attribute names or else the snake-case form of the variant's
/// identifier, and the enum with those attributes taken off. Fails on the
/// first variant with an explicit discriminant.
pub fn gen_messages(e: &MsgEnum) -> (r: Result<(Vec<Arm>, MsgEnum), MsgError>)
    ensures
        r is Ok <==> !has_discriminant(e.variants@),
        r matches Err(MsgError::Discriminant(i)) ==> {
            &&& i < e.variants@.len()
            &&& e.variants@[i as int].discriminant
            &&& forall|k: int| 0 <= k < i ==> !(#[trigger] e.variants@[k]).discriminant
        },
        r matches Ok((arms, out)) ==> {
            &&& arms@.len() == e.variants@.len()
            &&& forall|i: int|
                0 <= i < arms@.len() ==> arm_of(
                    #[trigger] arms@[i],
                    e.variants@[i],
                    snake_case_of(e.variants@[i].ident@),
                )
            &&& out.ident@ == e.ident@
            &&& out.variants@.len() == e.variants@.len()
            &&& forall|i: int|
                0 <= i < out.variants@.len() ==> rewritten(
                    #[trigger] out.variants@[i],
                    e.variants@[i],
                )
        },
{
    let mut arms: Vec<Arm> = Vec::new();
    let mut variants: Vec<Variant> = Vec::new();
    let mut i: usize = 0;
    while i < e.variants.len()
        invariant
            0 <= i <= e.variants@.len(),
            arms@.len() == i,
            variants@.len() == i,
            forall|k: int| 0 <= k < i ==> !(#[trigger] e.variants@[k]).discriminant,
            forall|k: int|
                0 <= k < i ==> arm_of(
                    #[trigger] arms@[k],
                    e.variants@[k],
                    snake_case_of(e.variants@[k].ident@),
                ),
            forall|k: int| 0 <= k < i ==> rewritten(#[trigger] variants@[k], e.variants@[k]),
        decreases e.variants@.len() - i,
    {
        let v = &e.variants[i];
        if v.discriminant {
            return Err(MsgError::Discriminant(i));
        }
        let snake = if v.attrs.len() == 1 {
            String::new()
        } else {
            to_snake_case(v.ident.as_str())
        };
        arms.push(build_arm(v, snake));
        let attrs = if v.attrs.len() == 1 {
            Vec::new()
        } else {
            clone_strings(&v.attrs)
        };
        variants.push(
            Variant {
                ident: v.ident.clone(),
                attrs,
                fields: clone_fields(&v.fields),
                discriminant: v.discriminant,
            },
        );
        i += 1;
    }
    Ok((arms, MsgEnum { ident: e.ident.clone(), variants }))
}

} // verus!
