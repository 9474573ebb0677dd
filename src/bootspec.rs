//! Generation descriptors: the record a generation's `boot.json` holds, its
//! decoding from a `Json` tree, and its encoding back.
use vstd::prelude::*;
use crate::json::{Json, lemma_lookup_push, lookup, take_entry, text_of};

verus! {

/// The keys a descriptor is read by.
#[derive(Clone, Copy, PartialEq, Eq, Structural, Debug)]
pub enum Field {
    Bootspec,
    Specialisation,
    Init,
    Initrd,
    InitSecrets,
    Kernel,
    KernelParams,
    Label,
    System,
    TopLevel,
}

impl Field {
    pub open spec fn key_spec(self) -> Seq<char> {
        match self {
            Field::Bootspec => "org.nixos.bootspec.v1"@,
            Field::Specialisation => "org.nixos.specialisation.v1"@,
            Field::Init => "init"@,
            Field::Initrd => "initrd"@,
            Field::InitSecrets => "initSecrets"@,
            Field::Kernel => "kernel"@,
            Field::KernelParams => "kernelParams"@,
            Field::Label => "label"@,
            Field::System => "system"@,
            Field::TopLevel => "topLevel"@,
        }
    }

    /// The key of this field in a descriptor document.
    pub fn key(&self) -> (r: &'static str)
        ensures
            r@ == self.key_spec(),
    {
        match self {
            Field::Bootspec => "org.nixos.bootspec.v1",
            Field::Specialisation => "org.nixos.specialisation.v1",
            Field::Init => "init",
            Field::Initrd => "initrd",
            Field::InitSecrets => "initSecrets",
            Field::Kernel => "kernel",
            Field::KernelParams => "kernelParams",
            Field::Label => "label",
            Field::System => "system",
            Field::TopLevel => "topLevel",
        }
    }
}

/// Distinct fields have distinct keys.
pub proof fn lemma_keys_distinct()
    ensures
        forall|a: Field, b: Field| a != b ==> a.key_spec() != b.key_spec(),
{
    reveal_strlit("org.nixos.bootspec.v1");
    reveal_strlit("org.nixos.specialisation.v1");
    reveal_strlit("init");
    reveal_strlit("initrd");
    reveal_strlit("initSecrets");
    reveal_strlit("kernel");
    reveal_strlit("kernelParams");
    reveal_strlit("label");
    reveal_strlit("system");
    reveal_strlit("topLevel");
    assert forall|a: Field, b: Field| a != b implies a.key_spec() != b.key_spec() by {
        if a.key_spec().len() == b.key_spec().len() {
            assert(a.key_spec()[0] != b.key_spec()[0] || a.key_spec()[1] != b.key_spec()[1]
                || a.key_spec()[4] != b.key_spec()[4] || a.key_spec()[17] != b.key_spec()[17]);
        }
    }
}

/// Why a document is not a generation descriptor.
#[derive(Clone, Copy, PartialEq, Eq, Structural, Debug)]
pub enum DecodeError {
    /// The document, or the value of the given field, is not an object.
    NotAnObject(Option<Field>),
    /// A required key is absent.
    Missing(Field),
    /// A key holds a value of the wrong shape.
    Invalid(Field),
}

/// The boot entry of a generation.
#[derive(Debug)]
pub struct Bootspec {
    pub init: String,
    pub initrd: Option<String>,
    pub init_secrets: Option<String>,
    pub kernel: String,
    pub kernel_params: Vec<String>,
    pub label: String,
    pub system: String,
    pub top_level: Option<String>,
}

pub struct BootspecView {
    pub init: Seq<char>,
    pub initrd: Option<Seq<char>>,
    pub init_secrets: Option<Seq<char>>,
    pub kernel: Seq<char>,
    pub kernel_params: Seq<Seq<char>>,
    pub label: Seq<char>,
    pub system: Seq<char>,
    pub top_level: Option<Seq<char>>,
}

pub open spec fn opt_view(o: Option<String>) -> Option<Seq<char>> {
    match o {
        Some(s) => Some(s@),
        None => None,
    }
}

pub open spec fn texts_view(v: Seq<String>) -> Seq<Seq<char>> {
    v.map_values(|s: String| s@)
}

impl View for Bootspec {
    type V = BootspecView;

    open spec fn view(&self) -> BootspecView {
        BootspecView {
            init: self.init@,
            initrd: opt_view(self.initrd),
            init_secrets: opt_view(self.init_secrets),
            kernel: self.kernel@,
            kernel_params: texts_view(self.kernel_params@),
            label: self.label@,
            system: self.system@,
            top_level: opt_view(self.top_level),
        }
    }
}

/// One generation: its boot entry and its specialisations, which are carried
/// through as they were read.
#[derive(Debug)]
pub struct Generation {
    pub bootspec: Bootspec,
    pub specialisation: Vec<(String, Json)>,
}

pub struct GenerationView {
    pub bootspec: BootspecView,
    pub specialisation: Seq<(String, Json)>,
}

impl View for Generation {
    type V = GenerationView;

    open spec fn view(&self) -> GenerationView {
        GenerationView { bootspec: self.bootspec@, specialisation: self.specialisation@ }
    }
}

impl Generation {
    /// The label the generation was given when it was built.
    pub fn label(&self) -> (r: String)
        ensures
            r@ == self@.bootspec.label,
    {
        self.bootspec.label.clone()
    }
}

/// A required text field.
pub open spec fn decode_text(o: Seq<(String, Json)>, f: Field) -> Result<Seq<char>, DecodeError> {
    match lookup(o, f.key_spec()) {
        None => Err(DecodeError::Missing(f)),
        Some(Json::Str(s)) => Ok(s@),
        Some(_) => Err(DecodeError::Invalid(f)),
    }
}

/// An optional text field: absent or `null` gives `None`.
pub open spec fn decode_opt_text(o: Seq<(String, Json)>, f: Field) -> Result<Option<Seq<char>>, DecodeError> {
    match lookup(o, f.key_spec()) {
        None => Ok(None),
        Some(Json::Null) => Ok(None),
        Some(Json::Str(s)) => Ok(Some(s@)),
        Some(_) => Err(DecodeError::Invalid(f)),
    }
}

pub open spec fn all_text(items: Seq<Json>) -> bool {
    forall|i: int| 0 <= i < items.len() ==> text_of(#[trigger] items[i]) is Some
}

pub open spec fn texts_of(items: Seq<Json>) -> Seq<Seq<char>> {
    items.map_values(|j: Json| text_of(j)->0)
}

/// A required list of texts.
pub open spec fn decode_list(o: Seq<(String, Json)>, f: Field) -> Result<Seq<Seq<char>>, DecodeError> {
    match lookup(o, f.key_spec()) {
        None => Err(DecodeError::Missing(f)),
        Some(Json::Array(items)) => if all_text(items@) {
            Ok(texts_of(items@))
        } else {
            Err(DecodeError::Invalid(f))
        },
        Some(_) => Err(DecodeError::Invalid(f)),
    }
}

/// The boot entry held by the entries `o`; fields are checked in the order
/// of `BootspecView`, and the first failure is reported. Keys that are not
/// fields are ignored.
pub open spec fn decode_bootspec(o: Seq<(String, Json)>) -> Result<BootspecView, DecodeError> {
    let init = decode_text(o, Field::Init);
    let initrd = decode_opt_text(o, Field::Initrd);
    let init_secrets = decode_opt_text(o, Field::InitSecrets);
    let kernel = decode_text(o, Field::Kernel);
    let kernel_params = decode_list(o, Field::KernelParams);
    let label = decode_text(o, Field::Label);
    let system = decode_text(o, Field::System);
    let top_level = decode_opt_text(o, Field::TopLevel);
    if init is Err { Err(init->Err_0) }
    else if initrd is Err { Err(initrd->Err_0) }
    else if init_secrets is Err { Err(init_secrets->Err_0) }
    else if kernel is Err { Err(kernel->Err_0) }
    else if kernel_params is Err { Err(kernel_params->Err_0) }
    else if label is Err { Err(label->Err_0) }
    else if system is Err { Err(system->Err_0) }
    else if top_level is Err { Err(top_level->Err_0) }
    else {
        Ok(BootspecView {
            init: init->Ok_0,
            initrd: initrd->Ok_0,
            init_secrets: init_secrets->Ok_0,
            kernel: kernel->Ok_0,
            kernel_params: kernel_params->Ok_0,
            label: label->Ok_0,
            system: system->Ok_0,
            top_level: top_level->Ok_0,
        })
    }
}

/// The generation a descriptor document describes. Only the two versioned
/// top-level keys are read; any other top-level key is ignored.
pub open spec fn decode_spec(j: Json) -> Result<GenerationView, DecodeError> {
    match j {
        Json::Object(top) => match lookup(top@, Field::Bootspec.key_spec()) {
            None => Err(DecodeError::Missing(Field::Bootspec)),
            Some(Json::Object(b)) => match decode_bootspec(b@) {
                Err(e) => Err(e),
                Ok(bv) => match lookup(top@, Field::Specialisation.key_spec()) {
                    None => Err(DecodeError::Missing(Field::Specialisation)),
                    Some(Json::Object(s)) => Ok(GenerationView { bootspec: bv, specialisation: s@ }),
                    Some(_) => Err(DecodeError::NotAnObject(Some(Field::Specialisation))),
                },
            },
            Some(_) => Err(DecodeError::NotAnObject(Some(Field::Bootspec))),
        },
        _ => Err(DecodeError::NotAnObject(None)),
    }
}

/// After a field is taken, the entries look the same under every other key.
pub open spec fn others_kept(before: Seq<(String, Json)>, after: Seq<(String, Json)>, f: Field) -> bool {
    forall|k: Seq<char>| k != f.key_spec() ==> lookup(after, k) == lookup(before, k)
}

fn take_text(o: &mut Vec<(String, Json)>, f: Field) -> (r: Result<String, DecodeError>)
    ensures
        others_kept(old(o)@, final(o)@, f),
        match r {
            Ok(s) => decode_text(old(o)@, f) == Ok::<Seq<char>, DecodeError>(s@),
            Err(e) => decode_text(old(o)@, f) == Err::<Seq<char>, DecodeError>(e),
        },
{
    match take_entry(o, f.key()) {
        None => Err(DecodeError::Missing(f)),
        Some(Json::Str(s)) => Ok(s),
        Some(_) => Err(DecodeError::Invalid(f)),
    }
}

fn take_opt_text(o: &mut Vec<(String, Json)>, f: Field) -> (r: Result<Option<String>, DecodeError>)
    ensures
        others_kept(old(o)@, final(o)@, f),
        match r {
            Ok(s) => decode_opt_text(old(o)@, f) == Ok::<Option<Seq<char>>, DecodeError>(opt_view(s)),
            Err(e) => decode_opt_text(old(o)@, f) == Err::<Option<Seq<char>>, DecodeError>(e),
        },
{
    match take_entry(o, f.key()) {
        None => Ok(None),
        Some(Json::Null) => Ok(None),
        Some(Json::Str(s)) => Ok(Some(s)),
        Some(_) => Err(DecodeError::Invalid(f)),
    }
}

/// The texts of a list whose items are all strings.
fn texts(list: Vec<Json>) -> (r: Option<Vec<String>>)
    ensures
        r is Some <==> all_text(list@),
        r is Some ==> texts_view(r->0@) == texts_of(list@),
{
    let ghost all = list@;
    let mut items = list;
    let mut out: Vec<String> = Vec::new();
    while items.len() > 0
        invariant
            all == list@,
            out@.len() + items@.len() == all.len(),
            items@ == all.subrange(out@.len() as int, all.len() as int),
            all_text(all.subrange(0, out@.len() as int)),
            texts_view(out@) == texts_of(all.subrange(0, out@.len() as int)),
        decreases items.len(),
    {
        let ghost k: int = out@.len() as int;
        let item = items.remove(0);
        assert(item == all[k as int]);
        match item {
            Json::Str(s) => {
                let ghost prev = out@;
                let ghost sv = s@;
                out.push(s);
                assert(all.subrange(0, k + 1) =~= all.subrange(0, k as int).push(all[k]));
                assert(texts_view(out@) =~= texts_view(prev).push(sv));
                assert(texts_of(all.subrange(0, k + 1)) =~= texts_of(all.subrange(0, k as int)).push(sv));
                assert(texts_view(out@) =~= texts_of(all.subrange(0, k + 1)));
                assert(items@ =~= all.subrange(k + 1, all.len() as int));
            },
            _ => {
                assert(text_of(all[k as int]) is None);
                assert(!all_text(all));
                return None;
            },
        }
    }
    assert(all.subrange(0, all.len() as int) =~= all);
    Some(out)
}

fn take_list(o: &mut Vec<(String, Json)>, f: Field) -> (r: Result<Vec<String>, DecodeError>)
    ensures
        others_kept(old(o)@, final(o)@, f),
        match r {
            Ok(v) => decode_list(old(o)@, f) == Ok::<Seq<Seq<char>>, DecodeError>(texts_view(v@)),
            Err(e) => decode_list(old(o)@, f) == Err::<Seq<Seq<char>>, DecodeError>(e),
        },
{
    match take_entry(o, f.key()) {
        None => Err(DecodeError::Missing(f)),
        Some(Json::Array(items)) => match texts(items) {
            Some(v) => Ok(v),
            None => Err(DecodeError::Invalid(f)),
        },
        Some(_) => Err(DecodeError::Invalid(f)),
    }
}

fn decode_boot_entry(o: Vec<(String, Json)>) -> (r: Result<Bootspec, DecodeError>)
    ensures
        match r {
            Ok(b) => decode_bootspec(o@) == Ok::<BootspecView, DecodeError>(b@),
            Err(e) => decode_bootspec(o@) == Err::<BootspecView, DecodeError>(e),
        },
{
    proof {
        lemma_keys_distinct();
    }
    let mut o = o;
    let init = take_text(&mut o, Field::Init);
    let initrd = take_opt_text(&mut o, Field::Initrd);
    let init_secrets = take_opt_text(&mut o, Field::InitSecrets);
    let kernel = take_text(&mut o, Field::Kernel);
    let kernel_params = take_list(&mut o, Field::KernelParams);
    let label = take_text(&mut o, Field::Label);
    let system = take_text(&mut o, Field::System);
    let top_level = take_opt_text(&mut o, Field::TopLevel);
    let init = match init { Ok(v) => v, Err(e) => return Err(e) };
    let initrd = match initrd { Ok(v) => v, Err(e) => return Err(e) };
    let init_secrets = match init_secrets { Ok(v) => v, Err(e) => return Err(e) };
    let kernel = match kernel { Ok(v) => v, Err(e) => return Err(e) };
    let kernel_params = match kernel_params { Ok(v) => v, Err(e) => return Err(e) };
    let label = match label { Ok(v) => v, Err(e) => return Err(e) };
    let system = match system { Ok(v) => v, Err(e) => return Err(e) };
    let top_level = match top_level { Ok(v) => v, Err(e) => return Err(e) };
    Ok(Bootspec { init, initrd, init_secrets, kernel, kernel_params, label, system, top_level })
}

/// Decodes a descriptor document into a generation. Unrecognized keys are
/// ignored; absent optional fields give `None`.
pub fn decode(j: Json) -> (r: Result<Generation, DecodeError>)
    ensures
        match r {
            Ok(g) => decode_spec(j) == Ok::<GenerationView, DecodeError>(g@),
            Err(e) => decode_spec(j) == Err::<GenerationView, DecodeError>(e),
        },
{
    proof {
        lemma_keys_distinct();
    }
    match j {
        Json::Object(top) => {
            let mut top = top;
            let boot = take_entry(&mut top, Field::Bootspec.key());
            match boot {
                None => Err(DecodeError::Missing(Field::Bootspec)),
                Some(Json::Object(b)) => match decode_boot_entry(b) {
                    Err(e) => Err(e),
                    Ok(bootspec) => match take_entry(&mut top, Field::Specialisation.key()) {
                        None => Err(DecodeError::Missing(Field::Specialisation)),
                        Some(Json::Object(specialisation)) => Ok(Generation { bootspec, specialisation }),
                        Some(_) => Err(DecodeError::NotAnObject(Some(Field::Specialisation))),
                    },
                },
                Some(_) => Err(DecodeError::NotAnObject(Some(Field::Bootspec))),
            }
        },
        _ => Err(DecodeError::NotAnObject(None)),
    }
}

fn keyed(f: Field, v: Json) -> (r: (String, Json))
    ensures
        r.0@ == f.key_spec(),
        r.1 == v,
{
    (String::from_str(f.key()), v)
}

fn push_opt(o: &mut Vec<(String, Json)>, f: Field, v: Option<String>)
    ensures
        match v {
            Some(s) => final(o)@ == old(o)@.push((final(o)@.last().0, Json::Str(s))) && final(o)@.last().0@ == f.key_spec(),
            None => final(o)@ == old(o)@,
        },
{
    match v {
        Some(s) => o.push(keyed(f, Json::Str(s))),
        None => {},
    }
}

/// String items for a list of texts, in order.
fn text_items(list: Vec<String>) -> (r: Vec<Json>)
    ensures
        all_text(r@),
        texts_of(r@) == texts_view(list@),
{
    let ghost all = list@;
    let mut items = list;
    let mut out: Vec<Json> = Vec::new();
    while items.len() > 0
        invariant
            all == list@,
            out@.len() + items@.len() == all.len(),
            items@ == all.subrange(out@.len() as int, all.len() as int),
            all_text(out@),
            texts_of(out@) == texts_view(all.subrange(0, out@.len() as int)),
        decreases items.len(),
    {
        let ghost k: int = out@.len() as int;
        let ghost prev = out@;
        let s = items.remove(0);
        let ghost sv = s@;
        out.push(Json::Str(s));
        assert(all.subrange(0, k + 1) =~= all.subrange(0, k).push(all[k]));
        assert(texts_of(out@) =~= texts_of(prev).push(sv));
        assert(texts_view(all.subrange(0, k + 1)) =~= texts_view(all.subrange(0, k)).push(sv));
        assert(items@ =~= all.subrange(k + 1, all.len() as int));
        assert(all_text(out@)) by {
            assert forall|i: int| 0 <= i < out@.len() implies text_of(#[trigger] out@[i]) is Some by {
                if i < k {
                    assert(out@[i] == prev[i]);
                }
            }
        }
    }
    assert(all.subrange(0, all.len() as int) =~= all);
    out
}

impl Generation {
    /// Encodes the generation as a descriptor document holding the two
    /// versioned keys; optional fields that are `None` are left out. Decoding
    /// the result gives back this generation.
    pub fn into_json(self) -> (r: Json)
        ensures
            decode_spec(r) == Ok::<GenerationView, DecodeError>(self@),
            r matches Json::Object(top) && top@.len() == 2,
    {
        proof {
            lemma_keys_distinct();
        }
        let ghost g = self@;
        let Generation { bootspec, specialisation } = self;
        let Bootspec { init, initrd, init_secrets, kernel, kernel_params, label, system, top_level } = bootspec;
        let mut b: Vec<(String, Json)> = Vec::new();
        let ghost s0 = b@;
        b.push(keyed(Field::Init, Json::Str(init)));
        let ghost s1 = b@;
        push_opt(&mut b, Field::Initrd, initrd);
        let ghost s2 = b@;
        push_opt(&mut b, Field::InitSecrets, init_secrets);
        let ghost s3 = b@;
        b.push(keyed(Field::Kernel, Json::Str(kernel)));
        let ghost s4 = b@;
        b.push(keyed(Field::KernelParams, Json::Array(text_items(kernel_params))));
        let ghost s5 = b@;
        b.push(keyed(Field::Label, Json::Str(label)));
        let ghost s6 = b@;
        b.push(keyed(Field::System, Json::Str(system)));
        let ghost s7 = b@;
        push_opt(&mut b, Field::TopLevel, top_level);
        proof {
            if s1.len() > s0.len() { lemma_push_all(s0, s1.last()); }
            if s2.len() > s1.len() { lemma_push_all(s1, s2.last()); }
            if s3.len() > s2.len() { lemma_push_all(s2, s3.last()); }
            lemma_push_all(s3, s4.last());
            lemma_push_all(s4, s5.last());
            lemma_push_all(s5, s6.last());
            lemma_push_all(s6, s7.last());
            if b@.len() > s7.len() { lemma_push_all(s7, b@.last()); }
            assert(decode_bootspec(b@) == Ok::<BootspecView, DecodeError>(g.bootspec));
        }
        let mut top: Vec<(String, Json)> = Vec::new();
        let ghost t0 = top@;
        top.push(keyed(Field::Bootspec, Json::Object(b)));
        let ghost t1 = top@;
        top.push(keyed(Field::Specialisation, Json::Object(specialisation)));
        proof {
            lemma_push_all(t0, t1.last());
            lemma_push_all(t1, top@.last());
        }
        Json::Object(top)
    }
}

proof fn lemma_push_all(entries: Seq<(String, Json)>, e: (String, Json))
    ensures
        forall|k: Seq<char>| #[trigger] lookup(entries.push(e), k) == (match lookup(entries, k) {
            Some(v) => Some(v),
            None => if e.0@ == k { Some(e.1) } else { None },
        }),
{
    assert forall|k: Seq<char>| #[trigger] lookup(entries.push(e), k) == (match lookup(entries, k) {
        Some(v) => Some(v),
        None => if e.0@ == k { Some(e.1) } else { None },
    }) by {
        lemma_lookup_push(entries, e, k);
    }
}

/// Top-level keys a descriptor is read by.
pub open spec fn recognized_top(k: Seq<char>) -> bool {
    k == Field::Bootspec.key_spec() || k == Field::Specialisation.key_spec()
}

/// The entries whose keys are recognized top-level keys, in order.
pub open spec fn known_entries(es: Seq<(String, Json)>) -> Seq<(String, Json)>
    decreases es.len(),
{
    if es.len() == 0 {
        es
    } else if recognized_top(es[0].0@) {
        seq![es[0]] + known_entries(es.drop_first())
    } else {
        known_entries(es.drop_first())
    }
}

proof fn lemma_known_lookup(es: Seq<(String, Json)>, k: Seq<char>)
    requires
        recognized_top(k),
    ensures
        lookup(known_entries(es), k) == lookup(es, k),
    decreases es.len(),
{
    if es.len() > 0 {
        lemma_known_lookup(es.drop_first(), k);
        if recognized_top(es[0].0@) {
            assert((seq![es[0]] + known_entries(es.drop_first())).drop_first() =~= known_entries(es.drop_first()));
        }
    }
}

/// A document with further top-level keys decodes to the same result as the
/// same document without them.
pub proof fn lemma_extra_keys_ignored(full: Json, trimmed: Json)
    requires
        full matches Json::Object(f) && trimmed matches Json::Object(t) && t@ == known_entries(f@),
    ensures
        decode_spec(full) == decode_spec(trimmed),
{
    let f = full->Object_0@;
    lemma_known_lookup(f, Field::Bootspec.key_spec());
    lemma_known_lookup(f, Field::Specialisation.key_spec());
}

} // verus!
