use vstd::prelude::*;

verus! {

/// The arguments of a `#[call]` attribute on a message variant.
#[derive(Clone, Copy, PartialEq, Eq, Structural, Debug)]
pub enum CallArgs {
    /// `#[call]`
    Bare,
    /// `#[call()]`
    EmptyList,
    /// `#[call(T)]` where `T` parses as a type.
    ReplyType,
    /// `#[call(...)]` where the tokens do not parse as a type.
    Unparsable,
    /// `#[call = ...]`
    KeyValue,
}

/// One attribute on a message variant, as far as the planning reads it.
#[derive(Clone, Copy, PartialEq, Eq, Structural, Debug)]
pub enum Attr {
    /// An attribute whose path is not `call`.
    Other,
    /// An attribute whose path is `call`.
    Call(CallArgs),
}

/// The fields of a message variant.
#[derive(Debug, PartialEq, Eq)]
pub enum Fields {
    /// `Variant { a: A, b: B }`, with the field names in order.
    Named(Vec<String>),
    /// `Variant(A, B)`, with the number of fields.
    Unnamed(usize),
    /// `Variant`
    Unit,
}

/// A variant of a message enum.
#[derive(Debug, PartialEq, Eq)]
pub struct Variant {
    pub name: String,
    pub attrs: Vec<Attr>,
    pub fields: Fields,
}

pub enum FieldsView {
    Named(Seq<Seq<char>>),
    Unnamed(nat),
    Unit,
}

pub struct VariantView {
    pub name: Seq<char>,
    pub attrs: Seq<Attr>,
    pub fields: FieldsView,
}

impl View for Fields {
    type V = FieldsView;

    open spec fn view(&self) -> FieldsView {
        match self {
            Fields::Named(names) => FieldsView::Named(names@.map_values(|n: String| n@)),
            Fields::Unnamed(count) => FieldsView::Unnamed(*count as nat),
            Fields::Unit => FieldsView::Unit,
        }
    }
}

impl View for Variant {
    type V = VariantView;

    open spec fn view(&self) -> VariantView {
        VariantView { name: self.name@, attrs: self.attrs@, fields: self.fields@ }
    }
}

/// What a call replies with.
#[derive(Clone, Copy, PartialEq, Eq, Structural, Debug)]
pub enum Reply {
    /// `()`
    Unit,
    /// The type written in the variant's `#[call(T)]` attribute.
    Declared,
}

/// How a helper method sends its message.
#[derive(Clone, Copy, PartialEq, Eq, Structural, Debug)]
pub enum Dispatch {
    /// Fire and forget (`Handle::cast`).
    Cast,
    /// Request and reply (`Handle::call`): the variant gets one more field, the
    /// reply channel, as its last field.
    Call(Reply),
}

/// How a helper method writes the message value.
#[derive(Clone, Copy, PartialEq, Eq, Structural, Debug)]
pub enum Form {
    /// `Enum::Variant(a, b)`; for a call the reply channel is appended last.
    Tuple,
    /// `Enum::Variant { a, b }`; for a call a last field `respond_to` holds the
    /// reply channel (a unit variant becomes a braced one with that field alone).
    Braced,
    /// `Enum::Variant`
    Bare,
}

/// Why a message enum cannot be given helper methods.
#[derive(Clone, Copy, PartialEq, Eq, Structural, Debug)]
pub enum PlanError {
    /// `#[call = ...]` is not supported.
    KeyValueCall { variant: usize, attr: usize },
    /// The tokens of `#[call(...)]` are not a type.
    BadReplyType { variant: usize, attr: usize },
}

/// The helper method generated for one variant.
#[derive(Debug, PartialEq, Eq)]
pub struct MethodPlan {
    /// The method's name.
    pub method: String,
    /// The parameter names, one per field of the variant, in field order; each
    /// parameter has the type of its field.
    pub params: Vec<String>,
    pub dispatch: Dispatch,
    pub form: Form,
    /// The `#[call]` attribute that the generated enum drops, by position.
    pub call_attr: Option<usize>,
}

/// The helper trait generated for a message enum.
#[derive(Debug, PartialEq, Eq)]
pub struct MessagePlan {
    /// The trait's name.
    pub helper_trait: String,
    /// One method per variant, in variant order.
    pub methods: Vec<MethodPlan>,
}

pub struct MethodPlanView {
    pub method: Seq<char>,
    pub params: Seq<Seq<char>>,
    pub dispatch: Dispatch,
    pub form: Form,
    pub call_attr: Option<nat>,
}

impl View for MethodPlan {
    type V = MethodPlanView;

    open spec fn view(&self) -> MethodPlanView {
        MethodPlanView {
            method: self.method@,
            params: self.params@.map_values(|p: String| p@),
            dispatch: self.dispatch,
            form: self.form,
            call_attr: match self.call_attr {
                Some(i) => Some(i as nat),
                None => None,
            },
        }
    }
}

/// The snake-case form of a name, as `heck::ToSnakeCase` computes it.
pub uninterp spec fn snake_case(text: Seq<char>) -> Seq<char>;

/// Converts a name to snake case with `heck::ToSnakeCase::to_snake_case`;
/// what the result is, is left to the name `snake_case`.
#[verifier::external_body]
fn to_snake_case(text: &str) -> (r: String)
    ensures
        r@ == snake_case(text@),
{
    heck::ToSnakeCase::to_snake_case(text)
}

/// The decimal digit `d` as a character.
pub open spec fn digit_char(d: nat) -> char {
    if d == 0 {
        '0'
    } else if d == 1 {
        '1'
    } else if d == 2 {
        '2'
    } else if d == 3 {
        '3'
    } else if d == 4 {
        '4'
    } else if d == 5 {
        '5'
    } else if d == 6 {
        '6'
    } else if d == 7 {
        '7'
    } else if d == 8 {
        '8'
    } else {
        '9'
    }
}

/// The decimal form of `n`, without leading zeros.
pub open spec fn decimal(n: nat) -> Seq<char>
    decreases n,
{
    if n < 10 {
        seq![digit_char(n)]
    } else {
        decimal(n / 10).push(digit_char(n % 10))
    }
}

/// The name of the parameter for the `i`-th field of a tuple variant.
pub open spec fn arg_name(i: nat) -> Seq<char> {
    "arg"@ + decimal(i)
}

/// The position of the first `#[call]` attribute at or after `from`.
pub open spec fn first_call_from(attrs: Seq<Attr>, from: int) -> Option<nat>
    decreases attrs.len() - from,
{
    if from < 0 || from >= attrs.len() {
        None
    } else if attrs[from] is Call {
        Some(from as nat)
    } else {
        first_call_from(attrs, from + 1)
    }
}

/// The parameter names of a variant's helper method.
pub open spec fn param_names(fields: FieldsView) -> Seq<Seq<char>> {
    match fields {
        FieldsView::Named(names) => names,
        FieldsView::Unnamed(count) => Seq::new(count, |i: int| arg_name(i as nat)),
        FieldsView::Unit => Seq::empty(),
    }
}

/// How the message value is written.
pub open spec fn form_of(fields: FieldsView, is_call: bool) -> Form {
    match fields {
        FieldsView::Unnamed(_) => Form::Tuple,
        _ => if is_call || param_names(fields).len() > 0 {
            Form::Braced
        } else {
            Form::Bare
        },
    }
}

/// The helper method of a variant without a `#[call]` attribute.
pub open spec fn plan_cast(v: VariantView) -> MethodPlanView {
    MethodPlanView {
        method: snake_case(v.name),
        params: param_names(v.fields),
        dispatch: Dispatch::Cast,
        form: form_of(v.fields, false),
        call_attr: None,
    }
}

/// The helper method of the variant at position `index` whose first `#[call]`
/// attribute, at position `a`, has the arguments `args`, or why there is none.
pub open spec fn plan_call(v: VariantView, index: nat, a: nat, args: CallArgs) -> Result<
    MethodPlanView,
    PlanError,
> {
    match args {
        CallArgs::KeyValue => Err(PlanError::KeyValueCall { variant: index as usize, attr: a as usize }),
        CallArgs::Unparsable => Err(
            PlanError::BadReplyType { variant: index as usize, attr: a as usize },
        ),
        _ => Ok(
            MethodPlanView {
                method: snake_case(v.name),
                params: param_names(v.fields),
                dispatch: Dispatch::Call(
                    if args == CallArgs::ReplyType {
                        Reply::Declared
                    } else {
                        Reply::Unit
                    },
                ),
                form: form_of(v.fields, true),
                call_attr: Some(a),
            },
        ),
    }
}

/// The helper method for the variant at position `index`, or why there is none.
pub open spec fn plan_variant(v: VariantView, index: nat) -> Result<MethodPlanView, PlanError> {
    match first_call_from(v.attrs, 0) {
        Some(a) => match v.attrs[a as int] {
            Attr::Call(args) => plan_call(v, index, a, args),
            Attr::Other => Ok(plan_cast(v)),
        },
        None => Ok(plan_cast(v)),
    }
}

/// The helper methods of all variants, in order, or the error of the first
/// variant that has none.
pub open spec fn plan_variants(vs: Seq<VariantView>) -> Result<Seq<MethodPlanView>, PlanError>
    decreases vs.len(),
{
    if vs.len() == 0 {
        Ok(Seq::empty())
    } else {
        match plan_variants(vs.drop_last()) {
            Err(e) => Err(e),
            Ok(ms) => match plan_variant(vs.last(), (vs.len() - 1) as nat) {
                Err(e) => Err(e),
                Ok(m) => Ok(ms.push(m)),
            },
        }
    }
}

/// The plan of a method, or the error, seen through views.
pub open spec fn method_result_view(r: Result<MethodPlan, PlanError>) -> Result<
    MethodPlanView,
    PlanError,
> {
    match r {
        Ok(m) => Ok(m@),
        Err(e) => Err(e),
    }
}

fn digit_str(d: usize) -> (s: &'static str)
    requires
        d < 10,
    ensures
        s@ == seq![digit_char(d as nat)],
{
    proof {
        reveal_strlit("0");
        reveal_strlit("1");
        reveal_strlit("2");
        reveal_strlit("3");
        reveal_strlit("4");
        reveal_strlit("5");
        reveal_strlit("6");
        reveal_strlit("7");
        reveal_strlit("8");
        reveal_strlit("9");
    }
    match d {
        0 => "0",
        1 => "1",
        2 => "2",
        3 => "3",
        4 => "4",
        5 => "5",
        6 => "6",
        7 => "7",
        8 => "8",
        _ => "9",
    }
}

/// Appends the decimal form of `n` to `text`.
fn append_decimal(text: &mut String, n: usize)
    ensures
        final(text)@ == old(text)@ + decimal(n as nat),
    decreases n,
{
    if n >= 10 {
        append_decimal(text, n / 10);
    }
    text.append(digit_str(n % 10));
    proof {
        if n >= 10 {
            assert(decimal(n as nat) == decimal((n / 10) as nat).push(digit_char((n % 10) as nat)));
        }
    }
    assert(text@ =~= old(text)@ + decimal(n as nat));
}

/// The name of the parameter for the `i`-th field of a tuple variant.
fn arg_param_name(i: usize) -> (name: String)
    ensures
        name@ == arg_name(i as nat),
{
    let mut name = String::from_str("arg");
    proof {
        reveal_strlit("arg");
    }
    append_decimal(&mut name, i);
    name
}

proof fn lemma_first_call_skip(attrs: Seq<Attr>, i: int)
    requires
        0 <= i <= attrs.len(),
        forall|j: int| 0 <= j < i ==> attrs[j] == Attr::Other,
    ensures
        first_call_from(attrs, 0) == first_call_from(attrs, i),
    decreases i,
{
    if i > 0 {
        lemma_first_call_skip(attrs, i - 1);
    }
}

/// The position of the first `#[call]` attribute.
fn find_first_call(attrs: &Vec<Attr>) -> (r: Option<usize>)
    ensures
        match r {
            Some(i) => first_call_from(attrs@, 0) == Some(i as nat) && i < attrs.len(),
            None => first_call_from(attrs@, 0) is None,
        },
{
    let mut i: usize = 0;
    while i < attrs.len()
        invariant
            0 <= i <= attrs.len(),
            forall|j: int| 0 <= j < i ==> attrs@[j] == Attr::Other,
        decreases attrs.len() - i,
    {
        match attrs[i] {
            Attr::Call(_) => {
                proof {
                    lemma_first_call_skip(attrs@, i as int);
                }
                return Some(i);
            },
            Attr::Other => {},
        }
        i = i + 1;
    }
    proof {
        lemma_first_call_skip(attrs@, i as int);
    }
    None
}

/// The parameter names of a variant's helper method.
fn params_of(fields: &Fields) -> (params: Vec<String>)
    ensures
        params@.map_values(|p: String| p@) == param_names(fields@),
        fields@ matches FieldsView::Named(names) ==> params.len() == names.len() && forall|i: int|
            0 <= i < names.len() ==> #[trigger] params@[i]@ == names[i],
        fields@ matches FieldsView::Unnamed(count) ==> params.len() == count && forall|i: int|
            0 <= i < count ==> #[trigger] params@[i]@ == "arg"@ + decimal(i as nat),
        fields@ is Unit ==> params.len() == 0,
{
    let mut params: Vec<String> = Vec::new();
    match fields {
        Fields::Named(names) => {
            let mut i: usize = 0;
            while i < names.len()
                invariant
                    0 <= i <= names.len(),
                    params.len() == i,
                    params@.map_values(|p: String| p@) == names@.map_values(|n: String| n@).take(
                        i as int,
                    ),
                decreases names.len() - i,
            {
                let name = names[i].clone();
                let ghost before = params@;
                params.push(name);
                assert forall|j: int| #![trigger params@[j]] 0 <= j < i + 1 implies params@.map_values(|p: String| p@)[j]
                    == names@.map_values(|n: String| n@).take(i + 1)[j] by {
                    if j < i {
                        assert(params@[j] == before[j]);
                        assert(before.map_values(|p: String| p@)[j] == names@.map_values(
                            |n: String| n@,
                        ).take(i as int)[j]);
                    }
                }
                assert(params@.map_values(|p: String| p@) =~= names@.map_values(|n: String| n@).take(
                    i + 1,
                ));
                i = i + 1;
            }
            assert(names@.map_values(|n: String| n@).take(names.len() as int) =~= names@.map_values(
                |n: String| n@,
            ));
        },
        Fields::Unnamed(count) => {
            let mut i: usize = 0;
            while i < *count
                invariant
                    0 <= i <= *count,
                    params.len() == i,
                    params@.map_values(|p: String| p@) =~= Seq::new(
                        i as nat,
                        |j: int| arg_name(j as nat),
                    ),
                decreases *count - i,
            {
                let name = arg_param_name(i);
                let ghost before = params@;
                params.push(name);
                assert forall|j: int| #![trigger params@[j]] 0 <= j < i + 1 implies params@.map_values(|p: String| p@)[j]
                    == arg_name(j as nat) by {
                    if j < i {
                        assert(params@[j] == before[j]);
                        assert(before.map_values(|p: String| p@)[j] == Seq::new(
                            i as nat,
                            |k: int| arg_name(k as nat),
                        )[j]);
                    }
                }
                assert(params@.map_values(|p: String| p@) =~= Seq::new(
                    (i + 1) as nat,
                    |j: int| arg_name(j as nat),
                ));
                i = i + 1;
            }
        },
        Fields::Unit => {
            assert(params@.map_values(|p: String| p@) =~= Seq::<Seq<char>>::empty());
        },
    }
    proof {
        assert forall|i: int| 0 <= i < params.len() implies #[trigger] params@[i]@ == param_names(
            fields@,
        )[i] by {
            assert(params@.map_values(|p: String| p@)[i] == params@[i]@);
        }
    }
    params
}

/// Whether the fields are a tuple.
fn is_tuple(fields: &Fields) -> (r: bool)
    ensures
        r == (fields@ is Unnamed),
{
    match fields {
        Fields::Unnamed(_) => true,
        _ => false,
    }
}

/// Plans the helper method of the variant at position `index`.
fn plan_one(v: &Variant, index: usize) -> (r: Result<MethodPlan, PlanError>)
    ensures
        method_result_view(r) == plan_variant(v@, index as nat),
{
    let call = find_first_call(&v.attrs);
    let (dispatch, call_attr) = match call {
        None => (Dispatch::Cast, None),
        Some(a) => match v.attrs[a] {
            Attr::Call(CallArgs::KeyValue) => {
                return Err(PlanError::KeyValueCall { variant: index, attr: a });
            },
            Attr::Call(CallArgs::Unparsable) => {
                return Err(PlanError::BadReplyType { variant: index, attr: a });
            },
            Attr::Call(CallArgs::ReplyType) => (Dispatch::Call(Reply::Declared), Some(a)),
            Attr::Call(_) => (Dispatch::Call(Reply::Unit), Some(a)),
            Attr::Other => (Dispatch::Cast, None),
        },
    };
    let method = to_snake_case(v.name.as_str());
    let params = params_of(&v.fields);
    let is_call = match dispatch {
        Dispatch::Call(_) => true,
        Dispatch::Cast => false,
    };
    let form = if is_tuple(&v.fields) {
        Form::Tuple
    } else if is_call || params.len() > 0 {
        Form::Braced
    } else {
        Form::Bare
    };
    Ok(MethodPlan { method, params, dispatch, form, call_attr })
}

/// The text of the error reported for `#[call = ...]`.
pub fn key_value_call_message() -> (text: String)
    ensures
        text@ == "#[call] does not support key=value syntax; use #[call] or #[call(ReturnType)]"@,
{
    String::from_str("#[call] does not support key=value syntax; use #[call] or #[call(ReturnType)]")
}

/// The number of fields of a variant.
pub open spec fn field_count(fields: FieldsView) -> nat {
    match fields {
        FieldsView::Named(names) => names.len(),
        FieldsView::Unnamed(count) => count,
        FieldsView::Unit => 0,
    }
}

/// How a helper method must follow its variant: named after it in snake case;
/// one parameter per field, named after the field for named fields and `argI`
/// for the `I`-th tuple field; the message written as a tuple exactly for tuple
/// fields, bare exactly for a cast without fields, and braced otherwise; a call
/// exactly when the variant carries a `#[call]` attribute.
pub open spec fn follows_fields(m: MethodPlanView, v: VariantView) -> bool {
    &&& m.method == snake_case(v.name)
    &&& m.params.len() == field_count(v.fields)
    &&& (v.fields matches FieldsView::Named(names) ==> forall|i: int|
        0 <= i < names.len() ==> #[trigger] m.params[i] == names[i])
    &&& (v.fields matches FieldsView::Unnamed(count) ==> forall|i: int|
        0 <= i < count ==> #[trigger] m.params[i] == "arg"@ + decimal(i as nat))
    &&& (m.form == Form::Tuple <==> v.fields is Unnamed)
    &&& (m.form == Form::Bare <==> (!(v.fields is Unnamed) && m.dispatch == Dispatch::Cast
        && field_count(v.fields) == 0))
    &&& (m.form == Form::Braced <==> (!(v.fields is Unnamed) && (m.dispatch is Call
        || field_count(v.fields) > 0)))
    &&& (m.dispatch is Call <==> exists|a: int| 0 <= a < v.attrs.len() && #[trigger] v.attrs[a] is Call)
}

/// The views of a sequence of method plans.
pub open spec fn method_views(ms: Seq<MethodPlan>) -> Seq<MethodPlanView> {
    ms.map_values(|m: MethodPlan| m@)
}

/// The views of a sequence of variants.
pub open spec fn variant_views(vs: Seq<Variant>) -> Seq<VariantView> {
    vs.map_values(|v: Variant| v@)
}

/// The name of the helper trait generated for an actor.
pub open spec fn helper_trait_name(actor: Seq<char>) -> Seq<char> {
    actor + "Ext"@
}

/// Plans the helper trait of a message enum for the actor named `actor`: one
/// method per variant, in order, that casts the variant's message or, where the
/// variant carries a `#[call]` attribute, calls with it and waits for the reply.
/// Fails with the error of the first variant whose `#[call]` attribute is
/// malformed.
pub fn plan_message(actor: &str, variants: &Vec<Variant>) -> (r: Result<MessagePlan, PlanError>)
    ensures
        match r {
            Ok(plan) => {
                &&& plan_variants(variant_views(variants@)) == Ok::<
                    Seq<MethodPlanView>,
                    PlanError,
                >(method_views(plan.methods@))
                &&& plan.helper_trait@ == helper_trait_name(actor@)
                &&& plan.helper_trait@ == actor@ + "Ext"@
                &&& plan.methods.len() == variants.len()
                &&& forall|k: int|
                    0 <= k < variants.len() ==> follows_fields(
                        #[trigger] plan.methods@[k]@,
                        variants@[k]@,
                    )
            },
            Err(e) => plan_variants(variant_views(variants@)) == Err::<
                Seq<MethodPlanView>,
                PlanError,
            >(e),
        },
{
    let mut methods: Vec<MethodPlan> = Vec::new();
    let mut i: usize = 0;
    assert(variant_views(variants@.take(0)) =~= Seq::<VariantView>::empty());
    assert(method_views(methods@) =~= Seq::<MethodPlanView>::empty());
    while i < variants.len()
        invariant
            0 <= i <= variants.len(),
            methods.len() == i,
            plan_variants(variant_views(variants@.take(i as int))) == Ok::<
                Seq<MethodPlanView>,
                PlanError,
            >(method_views(methods@)),
        decreases variants.len() - i,
    {
        let ghost prefix = variant_views(variants@.take(i as int));
        let ghost next = variant_views(variants@.take(i + 1));
        assert(next.drop_last() =~= prefix);
        assert(next.last() == variants@[i as int]@);
        match plan_one(&variants[i], i) {
            Ok(m) => {
                let ghost before = methods@;
                methods.push(m);
                assert(method_views(methods@) =~= method_views(before).push(methods@[i as int]@));
            },
            Err(e) => {
                proof {
                    lemma_plan_error_persists(variant_views(variants@), (i + 1) as int);
                    assert(variant_views(variants@).take(i + 1) =~= next);
                }
                return Err(e);
            },
        }
        i = i + 1;
    }
    assert(variants@.take(variants.len() as int) =~= variants@);
    let mut helper_trait = String::from_str(actor);
    helper_trait.append("Ext");
    proof {
        reveal_strlit("Ext");
    }
    proof {
        let vs = variant_views(variants@);
        lemma_plan_follows_fields(vs);
        let ms = method_views(methods@);
        assert forall|k: int| 0 <= k < variants.len() implies follows_fields(
            #[trigger] methods@[k]@,
            variants@[k]@,
        ) by {
            assert(ms[k] == methods@[k]@);
            assert(vs[k] == variants@[k]@);
        }
    }
    Ok(MessagePlan { helper_trait, methods })
}

proof fn lemma_plan_error_persists(vs: Seq<VariantView>, n: int)
    requires
        0 <= n <= vs.len(),
        plan_variants(vs.take(n)) is Err,
    ensures
        plan_variants(vs) == plan_variants(vs.take(n)),
    decreases vs.len() - n,
{
    if n < vs.len() {
        assert(vs.take(n + 1).drop_last() =~= vs.take(n));
        lemma_plan_error_persists(vs, n + 1);
    } else {
        assert(vs.take(n) =~= vs);
    }
}

/// The arguments of the first `#[call]` attribute, if there is one.
pub open spec fn first_call_args(attrs: Seq<Attr>) -> Option<CallArgs> {
    match first_call_from(attrs, 0) {
        Some(a) => match attrs[a as int] {
            Attr::Call(args) => Some(args),
            Attr::Other => None,
        },
        None => None,
    }
}

/// Whether the first `#[call]` attribute of a variant is malformed.
pub open spec fn variant_fails(v: VariantView) -> bool {
    match first_call_from(v.attrs, 0) {
        Some(a) => v.attrs[a as int] == Attr::Call(CallArgs::KeyValue) || v.attrs[a as int]
            == Attr::Call(CallArgs::Unparsable),
        None => false,
    }
}

proof fn lemma_first_call_found(attrs: Seq<Attr>, from: int)
    requires
        0 <= from,
    ensures
        first_call_from(attrs, from) matches Some(a) ==> from <= a < attrs.len() && attrs[a as int] is Call,
        first_call_from(attrs, from) is None ==> forall|j: int| from <= j < attrs.len() ==> attrs[j] == Attr::Other,
    decreases attrs.len() - from,
{
    if from < attrs.len() && !(attrs[from] is Call) {
        lemma_first_call_found(attrs, from + 1);
    }
}

/// Law: a variant's helper method is named after the variant in snake case and
/// takes one parameter per field; it calls (request and reply) exactly when the
/// variant carries a `#[call]` attribute and casts (fire and forget) otherwise;
/// a call replies with `()` for `#[call]` or `#[call()]` and with the declared
/// type for `#[call(T)]`; the first `#[call]` attribute is the one dropped.
pub proof fn lemma_method_of_variant(v: VariantView, index: nat)
    ensures
        plan_variant(v, index) is Err <==> variant_fails(v),
        plan_variant(v, index) matches Ok(m) ==> {
            &&& m.method == snake_case(v.name)
            &&& m.params == param_names(v.fields)
            &&& m.call_attr == first_call_from(v.attrs, 0)
            &&& (m.dispatch is Call <==> exists|a: int| 0 <= a < v.attrs.len() && #[trigger] v.attrs[a] is Call)
            &&& (m.dispatch == Dispatch::Call(Reply::Unit) <==> (first_call_args(v.attrs) == Some(
                CallArgs::Bare,
            ) || first_call_args(v.attrs) == Some(CallArgs::EmptyList)))
            &&& (m.dispatch == Dispatch::Call(Reply::Declared) <==> first_call_args(v.attrs) == Some(
                CallArgs::ReplyType,
            ))
        },
{
    lemma_first_call_found(v.attrs, 0);
    if let Some(a) = first_call_from(v.attrs, 0) {
        assert(v.attrs[a as int] is Call);
    } else {
        assert forall|a: int| 0 <= a < v.attrs.len() implies !(#[trigger] v.attrs[a] is Call) by {
            assert(v.attrs[a] == Attr::Other);
        }
    }
}

/// Law: planning a message enum succeeds exactly when no variant has a malformed
/// first `#[call]` attribute; then it gives one method per variant, in variant
/// order, each planned from its variant alone; otherwise it reports the error of
/// the first variant with a malformed one.
pub proof fn lemma_plan_outcome(vs: Seq<VariantView>)
    ensures
        plan_variants(vs) is Ok <==> forall|i: int| 0 <= i < vs.len() ==> !variant_fails(#[trigger] vs[i]),
        plan_variants(vs) matches Ok(ms) ==> {
            &&& ms.len() == vs.len()
            &&& forall|i: int| 0 <= i < vs.len() ==> plan_variant(#[trigger] vs[i], i as nat) == Ok::<MethodPlanView, PlanError>(ms[i])
        },
        plan_variants(vs) matches Err(e) ==> exists|i: int| {
            &&& 0 <= i < vs.len()
            &&& variant_fails(#[trigger] vs[i])
            &&& forall|j: int| 0 <= j < i ==> !variant_fails(#[trigger] vs[j])
            &&& plan_variant(vs[i], i as nat) == Err::<MethodPlanView, PlanError>(e)
        },
    decreases vs.len(),
{
    if vs.len() > 0 {
        let d = vs.drop_last();
        let last = (vs.len() - 1) as int;
        lemma_plan_outcome(d);
        lemma_method_of_variant(vs.last(), last as nat);
        assert forall|i: int| 0 <= i < d.len() implies #[trigger] d[i] == vs[i] by {}
        if plan_variants(d) is Ok {
            if variant_fails(vs.last()) {
                assert forall|j: int| 0 <= j < last implies !variant_fails(#[trigger] vs[j]) by {
                    assert(vs[j] == d[j]);
                }
                assert(vs[last] == vs.last());
                assert(plan_variants(vs)->Err_0 == plan_variant(vs.last(), last as nat)->Err_0);
                assert(variant_fails(vs[last]));
            } else {
                let ms = plan_variants(d)->Ok_0;
                let m = plan_variant(vs.last(), last as nat)->Ok_0;
                assert forall|i: int| 0 <= i < vs.len() implies plan_variant(#[trigger] vs[i], i as nat) == Ok::<MethodPlanView, PlanError>(ms.push(m)[i]) by {
                    if i < d.len() {
                        assert(d[i] == vs[i]);
                    }
                }
            }
        } else {
            let e = plan_variants(d)->Err_0;
            let i = choose|i: int| {
                &&& 0 <= i < d.len()
                &&& variant_fails(#[trigger] d[i])
                &&& forall|j: int| 0 <= j < i ==> !variant_fails(#[trigger] d[j])
                &&& plan_variant(d[i], i as nat) == Err::<MethodPlanView, PlanError>(e)
            };
            assert(vs[i] == d[i]);
            assert forall|j: int| 0 <= j < i implies !variant_fails(#[trigger] vs[j]) by {
                assert(vs[j] == d[j]);
            }
        }
    }
}

proof fn lemma_decimal_len(n: nat)
    ensures
        decimal(n).len() >= 1,
        n >= 10 ==> decimal(n).len() >= 2,
    decreases n,
{
    if n >= 10 {
        lemma_decimal_len(n / 10);
    }
}

proof fn lemma_digit_injective(x: nat, y: nat)
    requires
        x < 10,
        y < 10,
        digit_char(x) == digit_char(y),
    ensures
        x == y,
{
}

proof fn lemma_decimal_injective(a: nat, b: nat)
    requires
        decimal(a) == decimal(b),
    ensures
        a == b,
    decreases a,
{
    lemma_decimal_len(a);
    lemma_decimal_len(b);
    if a >= 10 && b >= 10 {
        assert(decimal(a).drop_last() == decimal(a / 10));
        assert(decimal(b).drop_last() == decimal(b / 10));
        lemma_decimal_injective(a / 10, b / 10);
        assert(decimal(a).last() == digit_char(a % 10));
        assert(decimal(b).last() == digit_char(b % 10));
        lemma_digit_injective(a % 10, b % 10);
    } else if a < 10 && b < 10 {
        assert(decimal(a)[0] == digit_char(a));
        assert(decimal(b)[0] == digit_char(b));
        lemma_digit_injective(a, b);
    }
}

/// Law: the parameters of a tuple variant's helper method have pairwise
/// distinct names.
pub proof fn lemma_tuple_params_distinct(count: nat, i: int, j: int)
    requires
        0 <= i < count,
        0 <= j < count,
        i != j,
    ensures
        param_names(FieldsView::Unnamed(count))[i] != param_names(FieldsView::Unnamed(count))[j],
{
    let ps = param_names(FieldsView::Unnamed(count));
    assert(ps[i] == arg_name(i as nat));
    assert(ps[j] == arg_name(j as nat));
    if arg_name(i as nat) == arg_name(j as nat) {
        let p = "arg"@;
        assert(arg_name(i as nat).subrange(p.len() as int, arg_name(i as nat).len() as int) =~= decimal(i as nat));
        assert(arg_name(j as nat).subrange(p.len() as int, arg_name(j as nat).len() as int) =~= decimal(j as nat));
        lemma_decimal_injective(i as nat, j as nat);
    }
}

proof fn lemma_variant_follows_fields(v: VariantView, index: nat)
    requires
        plan_variant(v, index) is Ok,
    ensures
        follows_fields(plan_variant(v, index)->Ok_0, v),
{
    lemma_method_of_variant(v, index);
    let m = plan_variant(v, index)->Ok_0;
    match v.fields {
        FieldsView::Named(names) => {
            assert(m.params == names);
        },
        FieldsView::Unnamed(count) => {
            assert forall|i: int| 0 <= i < count implies #[trigger] m.params[i] == "arg"@ + decimal(
                i as nat,
            ) by {
                assert(m.params[i] == arg_name(i as nat));
            }
        },
        FieldsView::Unit => {},
    }
}

/// Law: when planning succeeds, each variant's helper method follows the
/// variant: its name is the variant's in snake case; its parameters are the
/// variant's field names in field order (`arg0`, `arg1`, ... for a tuple); the
/// message is written as a tuple exactly for tuple fields, bare exactly for a
/// cast without fields and braced otherwise; and it calls exactly when the
/// variant carries a `#[call]` attribute.
pub proof fn lemma_plan_follows_fields(vs: Seq<VariantView>)
    ensures
        plan_variants(vs) matches Ok(ms) ==> {
            &&& ms.len() == vs.len()
            &&& forall|k: int| 0 <= k < vs.len() ==> follows_fields(#[trigger] ms[k], vs[k])
        },
{
    lemma_plan_outcome(vs);
    if plan_variants(vs) is Ok {
        let ms = plan_variants(vs)->Ok_0;
        assert forall|k: int| 0 <= k < vs.len() implies follows_fields(#[trigger] ms[k], vs[k]) by {
            assert(plan_variant(vs[k], k as nat) == Ok::<MethodPlanView, PlanError>(ms[k]));
            lemma_variant_follows_fields(vs[k], k as nat);
        }
    }
}

} // verus!
