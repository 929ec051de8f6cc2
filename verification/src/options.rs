//! What a client can be asked for when it is created.

use vstd::prelude::*;

verus! {

/// Which device allocator the GPU plugin builds for a client.
///
/// The plugin parses the spelling and rejects anything else, so the kinds are
/// an enum here rather than a string the caller composes.
#[derive(Clone, Copy, Debug, PartialEq, Eq)]
pub enum AllocatorKind {
    /// Whatever the plugin picks for the platform, which on CUDA is
    /// [`AllocatorKind::Bfc`].
    Default,
    /// The platform's own allocator: one driver allocation per request, no
    /// pool and no arena, so nothing is claimed up front.
    Platform,
    /// Best-fit with coalescing over one arena. Every allocation is placed in
    /// that arena, so a large one needs a free block of its size.
    Bfc,
    /// `cudaMallocAsync` out of the device's default memory pool. The driver
    /// maps the pool's pages behind a request, so an allocation needs
    /// contiguous virtual addresses rather than a contiguous free block.
    CudaAsync,
    /// CUDA virtual memory management: virtual address space reserved up
    /// front and mapped to physical pages as they are needed.
    Vmm,
}

impl AllocatorKind {
    /// The spelling of each kind.
    pub open spec fn spelling(self) -> Seq<char> {
        match self {
            AllocatorKind::Default => "default"@,
            AllocatorKind::Platform => "platform"@,
            AllocatorKind::Bfc => "bfc"@,
            AllocatorKind::CudaAsync => "cuda_async"@,
            AllocatorKind::Vmm => "vmm"@,
        }
    }

    /// A spelling takes one byte for each character.
    proof fn lemma_spelling_bytes(self)
        ensures
            vstd::utf8::encode_utf8(self.spelling()).len() == self.spelling().len() <= 32,
    {
        reveal_strlit("default");
        reveal_strlit("platform");
        reveal_strlit("bfc");
        reveal_strlit("cuda_async");
        reveal_strlit("vmm");
        vstd::utf8::is_ascii_chars_encode_utf8(self.spelling());
    }

    /// The spelling the plugin parses. It rides as a counted string, so no
    /// NUL terminator is needed.
    pub fn as_str(self) -> (spelling: &'static str)
        ensures
            spelling@ == self.spelling(),
            self is Default ==> spelling@ == "default"@,
            self is Platform ==> spelling@ == "platform"@,
            self is Bfc ==> spelling@ == "bfc"@,
            self is CudaAsync ==> spelling@ == "cuda_async"@,
            self is Vmm ==> spelling@ == "vmm"@,
    {
        match self {
            AllocatorKind::Default => "default",
            AllocatorKind::Platform => "platform",
            AllocatorKind::Bfc => "bfc",
            AllocatorKind::CudaAsync => "cuda_async",
            AllocatorKind::Vmm => "vmm",
        }
    }
}

/// The bits of a 32-bit floating-point number, which only pass through here.
#[derive(Clone, Copy, Debug, PartialEq, Eq)]
pub struct FloatBits(pub u32);

/// Client creation options.
///
/// `preallocate: Some(false)` keeps the GPU plugin's allocator from claiming
/// the card up front, which lets several sessions (each its own allocator and
/// stream) coexist in one process alongside other CUDA users. `None` leaves
/// the plugin's default (preallocate most of the card, one client).
///
/// `memory_fraction` is the share of the card the client's allocator may take
/// (the plugin's default is 0.75); with `preallocate: Some(true)` it is
/// claimed at creation, which is how a client reserves memory ahead of other
/// CUDA users that size themselves from what is free.
///
/// `eager_load_executable_modules: Some(true)` makes the plugin load a
/// deserialized executable's modules when it is loaded instead of on its
/// first execution. An older plugin rejects the unknown key and client
/// creation fails, so leave it `None` against those.
///
/// `allocator` picks which device allocator the client builds; `None` leaves
/// the plugin's default, which on CUDA is the BFC allocator. Under BFC,
/// `memory_fraction` is a ceiling as well as a claim. Under
/// [`AllocatorKind::CudaAsync`] it is the release threshold of the device's
/// default memory pool, which grows past it while the card has room.
///
/// `staging_threshold_bytes` is the size at or above which a host-to-device
/// transfer is DMA'd straight out of the caller's pageable memory instead of
/// being copied through the client's pinned staging pool. The plugin's
/// default is 1 GiB. An older plugin rejects the unknown key.
#[derive(Clone, Copy, Debug)]
pub struct SessionOptions {
    pub preallocate: Option<bool>,
    pub memory_fraction: Option<FloatBits>,
    pub eager_load_executable_modules: Option<bool>,
    pub staging_threshold_bytes: Option<i64>,
    pub allocator: Option<AllocatorKind>,
}

impl SessionOptions {
    /// The options that leave every choice to the plugin.
    pub open spec fn unset() -> SessionOptions {
        SessionOptions {
            preallocate: None,
            memory_fraction: None,
            eager_load_executable_modules: None,
            staging_threshold_bytes: None,
            allocator: None,
        }
    }
}

impl Default for SessionOptions {
    fn default() -> (options: SessionOptions)
        ensures
            options == SessionOptions::unset(),
            options.preallocate is None,
            options.memory_fraction is None,
            options.eager_load_executable_modules is None,
            options.staging_threshold_bytes is None,
            options.allocator is None,
    {
        SessionOptions {
            preallocate: None,
            memory_fraction: None,
            eager_load_executable_modules: None,
            staging_threshold_bytes: None,
            allocator: None,
        }
    }
}

/// The value of a named option, tagged with its type.
#[derive(Clone, Copy, Debug, PartialEq, Eq)]
pub enum OptionValue {
    Bool(bool),
    Float(FloatBits),
    Int64(i64),
    Text(&'static str),
}

/// One option as the plugin takes it: a counted name and a tagged value.
#[derive(Clone, Copy, Debug, PartialEq, Eq)]
pub struct NamedValue {
    pub name: &'static str,
    /// The length of the name in bytes.
    pub name_size: usize,
    pub value: OptionValue,
    /// The length of a text in bytes; 1 for a scalar.
    pub value_size: usize,
}

/// The mathematical value of an [`OptionValue`].
pub enum OptionValueSpec {
    Bool(bool),
    Float(FloatBits),
    Int64(i64),
    Text(Seq<char>),
}

/// The mathematical value of a [`NamedValue`].
pub struct NamedValueSpec {
    pub name: Seq<char>,
    pub name_size: nat,
    pub value: OptionValueSpec,
    pub value_size: nat,
}

impl DeepView for OptionValue {
    type V = OptionValueSpec;

    open spec fn deep_view(&self) -> OptionValueSpec {
        match *self {
            OptionValue::Bool(value) => OptionValueSpec::Bool(value),
            OptionValue::Float(value) => OptionValueSpec::Float(value),
            OptionValue::Int64(value) => OptionValueSpec::Int64(value),
            OptionValue::Text(value) => OptionValueSpec::Text(value@),
        }
    }
}

impl DeepView for NamedValue {
    type V = NamedValueSpec;

    open spec fn deep_view(&self) -> NamedValueSpec {
        NamedValueSpec {
            name: self.name@,
            name_size: self.name_size as nat,
            value: self.value.deep_view(),
            value_size: self.value_size as nat,
        }
    }
}

impl NamedValueSpec {
    /// A scalar option: its value counts as one.
    pub open spec fn scalar(name: Seq<char>, value: OptionValueSpec) -> NamedValueSpec {
        NamedValueSpec { name, name_size: name.len(), value, value_size: 1 }
    }

    /// A text option: its value counts its characters.
    pub open spec fn text(name: Seq<char>, text: Seq<char>) -> NamedValueSpec {
        NamedValueSpec {
            name,
            name_size: name.len(),
            value: OptionValueSpec::Text(text),
            value_size: text.len(),
        }
    }
}

/// The named value of an option that is set; nothing for one that is not.
pub open spec fn named_option(name: Seq<char>, value: Option<OptionValueSpec>) -> Seq<
    NamedValueSpec,
> {
    match value {
        Some(OptionValueSpec::Text(text)) => seq![NamedValueSpec::text(name, text)],
        Some(value) => seq![NamedValueSpec::scalar(name, value)],
        None => Seq::empty(),
    }
}

/// The value that each option has if it is set.
impl SessionOptions {
    pub open spec fn preallocate_value(self) -> Option<OptionValueSpec> {
        match self.preallocate {
            Some(preallocate) => Some(OptionValueSpec::Bool(preallocate)),
            None => None,
        }
    }

    pub open spec fn memory_fraction_value(self) -> Option<OptionValueSpec> {
        match self.memory_fraction {
            Some(fraction) => Some(OptionValueSpec::Float(fraction)),
            None => None,
        }
    }

    pub open spec fn eager_load_value(self) -> Option<OptionValueSpec> {
        match self.eager_load_executable_modules {
            Some(eager) => Some(OptionValueSpec::Bool(eager)),
            None => None,
        }
    }

    pub open spec fn allocator_value(self) -> Option<OptionValueSpec> {
        match self.allocator {
            Some(kind) => Some(OptionValueSpec::Text(kind.spelling())),
            None => None,
        }
    }

    pub open spec fn staging_threshold_value(self) -> Option<OptionValueSpec> {
        match self.staging_threshold_bytes {
            Some(threshold) => Some(OptionValueSpec::Int64(threshold)),
            None => None,
        }
    }

    /// The named values that the options stand for: one for each option that
    /// is set, in a fixed order.
    pub open spec fn named(self) -> Seq<NamedValueSpec> {
        named_option("preallocate"@, self.preallocate_value())
            + named_option("memory_fraction"@, self.memory_fraction_value())
            + named_option("eager_load_executable_modules"@, self.eager_load_value())
            + named_option("allocator"@, self.allocator_value())
            + named_option("staging_threshold_bytes"@, self.staging_threshold_value())
    }

    /// The options as the plugin takes them.
    pub fn named_values(&self) -> (named: Vec<NamedValue>)
        ensures
            named.deep_view() == self.named(),
            self.given_as(named.deep_view()),
            forall|i: int|
                0 <= i < named@.len() ==> (#[trigger] named@[i]).name_size
                    == named@[i].name@.len(),
    {
        proof {
            lemma_option_names();
            law_options_are_given_as_set(*self);
        }
        let mut named: Vec<NamedValue> = Vec::new();
        let preallocate = match self.preallocate {
            Some(preallocate) => Some(OptionValue::Bool(preallocate)),
            None => None,
        };
        append(&mut named, "preallocate", preallocate);
        let fraction = match self.memory_fraction {
            Some(fraction) => Some(OptionValue::Float(fraction)),
            None => None,
        };
        append(&mut named, "memory_fraction", fraction);
        let eager = match self.eager_load_executable_modules {
            Some(eager) => Some(OptionValue::Bool(eager)),
            None => None,
        };
        append(&mut named, "eager_load_executable_modules", eager);
        let allocator = match self.allocator {
            Some(kind) => {
                proof {
                    kind.lemma_spelling_bytes();
                }
                Some(OptionValue::Text(kind.as_str()))
            },
            None => None,
        };
        append(&mut named, "allocator", allocator);
        let threshold = match self.staging_threshold_bytes {
            Some(threshold) => Some(OptionValue::Int64(threshold)),
            None => None,
        };
        append(&mut named, "staging_threshold_bytes", threshold);
        assert forall|i: int| 0 <= i < named@.len() implies (#[trigger] named@[i]).name_size
            == named@[i].name@.len() by {
            assert(named.deep_view()[i] == named@[i].deep_view());
        }
        named
    }
}

/// Appends the named value of an option that is set.
fn append(named: &mut Vec<NamedValue>, name: &'static str, value: Option<OptionValue>)
    requires
        vstd::utf8::encode_utf8(name@).len() == name@.len() <= 32,
        value matches Some(OptionValue::Text(text)) ==> vstd::utf8::encode_utf8(text@).len()
            == text@.len() <= 32,
    ensures
        final(named).deep_view() == old(named).deep_view() + named_option(
            name@,
            value.deep_view(),
        ),
{
    if let Some(value) = value {
        // A text counts its characters; the rest stand at the scalar 1.
        let value_size: usize = match value {
            OptionValue::Text(text) => text.len(),
            _ => 1,
        };
        named.push(NamedValue { name, name_size: name.len(), value, value_size });
    }
    assert(named.deep_view() =~= old(named).deep_view() + named_option(name@, value.deep_view()));
}

/// The name of an option takes one byte for each character.
proof fn lemma_option_names()
    ensures
        vstd::utf8::encode_utf8("preallocate"@).len() == "preallocate"@.len() <= 32,
        vstd::utf8::encode_utf8("memory_fraction"@).len() == "memory_fraction"@.len() <= 32,
        vstd::utf8::encode_utf8("eager_load_executable_modules"@).len()
            == "eager_load_executable_modules"@.len() <= 32,
        vstd::utf8::encode_utf8("allocator"@).len() == "allocator"@.len() <= 32,
        vstd::utf8::encode_utf8("staging_threshold_bytes"@).len()
            == "staging_threshold_bytes"@.len() <= 32,
{
    reveal_strlit("preallocate");
    reveal_strlit("memory_fraction");
    reveal_strlit("eager_load_executable_modules");
    reveal_strlit("allocator");
    reveal_strlit("staging_threshold_bytes");
    vstd::utf8::is_ascii_chars_encode_utf8("preallocate"@);
    vstd::utf8::is_ascii_chars_encode_utf8("memory_fraction"@);
    vstd::utf8::is_ascii_chars_encode_utf8("eager_load_executable_modules"@);
    vstd::utf8::is_ascii_chars_encode_utf8("allocator"@);
    vstd::utf8::is_ascii_chars_encode_utf8("staging_threshold_bytes"@);
}

/// What a plugin finds under a name: the value of the first named value that
/// has it.
pub open spec fn found(named: Seq<NamedValueSpec>, name: Seq<char>) -> Option<OptionValueSpec>
    decreases named.len(),
{
    if named.len() == 0 {
        None
    } else if named[0].name == name {
        Some(named[0].value)
    } else {
        found(named.drop_first(), name)
    }
}

/// No name occurs twice.
pub open spec fn distinct_names(named: Seq<NamedValueSpec>) -> bool {
    forall|i: int, j: int|
        0 <= i < j < named.len() ==> (#[trigger] named[i]).name != (#[trigger] named[j]).name
}

/// The first of two lists goes before the second.
proof fn lemma_found_append(
    first: Seq<NamedValueSpec>,
    second: Seq<NamedValueSpec>,
    name: Seq<char>,
)
    ensures
        found(first + second, name) == match found(first, name) {
            Some(value) => Some(value),
            None => found(second, name),
        },
    decreases first.len(),
{
    if first.len() == 0 {
        assert(first + second =~= second);
    } else {
        assert((first + second).drop_first() =~= first.drop_first() + second);
        lemma_found_append(first.drop_first(), second, name);
    }
}

/// An option is found under its own name and no other.
proof fn lemma_found_option(own: Seq<char>, value: Option<OptionValueSpec>, name: Seq<char>)
    ensures
        found(named_option(own, value), name) == if own == name {
            value
        } else {
            None
        },
{
    reveal_with_fuel(found, 2);
}

/// The names of the options are distinct, by their lengths.
proof fn lemma_names_differ()
    ensures
        "preallocate"@.len() == 11,
        "memory_fraction"@.len() == 15,
        "eager_load_executable_modules"@.len() == 29,
        "allocator"@.len() == 9,
        "staging_threshold_bytes"@.len() == 23,
{
    reveal_strlit("preallocate");
    reveal_strlit("memory_fraction");
    reveal_strlit("eager_load_executable_modules");
    reveal_strlit("allocator");
    reveal_strlit("staging_threshold_bytes");
}

impl SessionOptions {
    /// What is found in the list under a name, part by part.
    proof fn lemma_found(self, name: Seq<char>)
        ensures
            found(self.named(), name) == if name == "preallocate"@ {
                self.preallocate_value()
            } else if name == "memory_fraction"@ {
                self.memory_fraction_value()
            } else if name == "eager_load_executable_modules"@ {
                self.eager_load_value()
            } else if name == "allocator"@ {
                self.allocator_value()
            } else if name == "staging_threshold_bytes"@ {
                self.staging_threshold_value()
            } else {
                None
            },
    {
        lemma_names_differ();
        let one = named_option("preallocate"@, self.preallocate_value());
        let two = named_option("memory_fraction"@, self.memory_fraction_value());
        let three = named_option("eager_load_executable_modules"@, self.eager_load_value());
        let four = named_option("allocator"@, self.allocator_value());
        let five = named_option("staging_threshold_bytes"@, self.staging_threshold_value());
        lemma_found_append(one, two, name);
        lemma_found_append(one + two, three, name);
        lemma_found_append(one + two + three, four, name);
        lemma_found_append(one + two + three + four, five, name);
        lemma_found_option("preallocate"@, self.preallocate_value(), name);
        lemma_found_option("memory_fraction"@, self.memory_fraction_value(), name);
        lemma_found_option("eager_load_executable_modules"@, self.eager_load_value(), name);
        lemma_found_option("allocator"@, self.allocator_value(), name);
        lemma_found_option("staging_threshold_bytes"@, self.staging_threshold_value(), name);
    }
}

/// Appending an option keeps names distinct if its own is new.
proof fn lemma_distinct_append(
    named: Seq<NamedValueSpec>,
    name: Seq<char>,
    value: Option<OptionValueSpec>,
)
    requires
        distinct_names(named),
        forall|i: int| 0 <= i < named.len() ==> (#[trigger] named[i]).name.len() != name.len(),
    ensures
        distinct_names(named + named_option(name, value)),
        forall|i: int|
            #![trigger (named + named_option(name, value))[i]]
            0 <= i < (named + named_option(name, value)).len() ==> {
                ||| (named + named_option(name, value))[i].name == name
                ||| i < named.len() && (named + named_option(name, value))[i] == named[i]
            },
{
}

/// The plugin finds under each name the value of that option, and nothing
/// under the name of an option that is not set or under any other name; no
/// name is given twice.
pub proof fn law_options_are_found_by_name(options: SessionOptions)
    ensures
        found(options.named(), "preallocate"@) == options.preallocate_value(),
        found(options.named(), "memory_fraction"@) == options.memory_fraction_value(),
        found(options.named(), "eager_load_executable_modules"@) == options.eager_load_value(),
        found(options.named(), "allocator"@) == options.allocator_value(),
        found(options.named(), "staging_threshold_bytes"@) == options.staging_threshold_value(),
        forall|name: Seq<char>|
            #![trigger found(options.named(), name)]
            {
                ||| name == "preallocate"@
                ||| name == "memory_fraction"@
                ||| name == "eager_load_executable_modules"@
                ||| name == "allocator"@
                ||| name == "staging_threshold_bytes"@
                ||| found(options.named(), name) is None
            },
        distinct_names(options.named()),
{
    lemma_names_differ();
    options.lemma_found("preallocate"@);
    options.lemma_found("memory_fraction"@);
    options.lemma_found("eager_load_executable_modules"@);
    options.lemma_found("allocator"@);
    options.lemma_found("staging_threshold_bytes"@);
    assert forall|name: Seq<char>|
        #![trigger found(options.named(), name)]
        {
            ||| name == "preallocate"@
            ||| name == "memory_fraction"@
            ||| name == "eager_load_executable_modules"@
            ||| name == "allocator"@
            ||| name == "staging_threshold_bytes"@
            ||| found(options.named(), name) is None
        } by {
        options.lemma_found(name);
    }
    let one = named_option("preallocate"@, options.preallocate_value());
    lemma_distinct_append(one, "memory_fraction"@, options.memory_fraction_value());
    let two = one + named_option("memory_fraction"@, options.memory_fraction_value());
    lemma_distinct_append(two, "eager_load_executable_modules"@, options.eager_load_value());
    let three = two + named_option("eager_load_executable_modules"@, options.eager_load_value());
    lemma_distinct_append(three, "allocator"@, options.allocator_value());
    let four = three + named_option("allocator"@, options.allocator_value());
    lemma_distinct_append(four, "staging_threshold_bytes"@, options.staging_threshold_value());
}

/// Where the name of an option stands among the others.
pub open spec fn place(name: Seq<char>) -> int {
    if name == "preallocate"@ {
        0
    } else if name == "memory_fraction"@ {
        1
    } else if name == "eager_load_executable_modules"@ {
        2
    } else if name == "allocator"@ {
        3
    } else {
        4
    }
}

impl SessionOptions {
    /// A plugin that is given these named values finds in them what was set in
    /// the options, each as it was set, and nothing else.
    pub open spec fn given_as(self, named: Seq<NamedValueSpec>) -> bool {
        // What was set is found as it was set, and what was not is not found.
        &&& found(named, "preallocate"@) == match self.preallocate {
            Some(preallocate) => Some(OptionValueSpec::Bool(preallocate)),
            None => None,
        }
        &&& found(named, "memory_fraction"@) == match self.memory_fraction {
            Some(fraction) => Some(OptionValueSpec::Float(fraction)),
            None => None,
        }
        &&& found(named, "eager_load_executable_modules"@)
            == match self.eager_load_executable_modules {
            Some(eager) => Some(OptionValueSpec::Bool(eager)),
            None => None,
        }
        &&& found(named, "allocator"@) == match self.allocator {
            Some(AllocatorKind::Default) => Some(OptionValueSpec::Text("default"@)),
            Some(AllocatorKind::Platform) => Some(OptionValueSpec::Text("platform"@)),
            Some(AllocatorKind::Bfc) => Some(OptionValueSpec::Text("bfc"@)),
            Some(AllocatorKind::CudaAsync) => Some(OptionValueSpec::Text("cuda_async"@)),
            Some(AllocatorKind::Vmm) => Some(OptionValueSpec::Text("vmm"@)),
            None => None,
        }
        &&& found(named, "staging_threshold_bytes"@) == match self.staging_threshold_bytes {
            Some(threshold) => Some(OptionValueSpec::Int64(threshold)),
            None => None,
        }
        // Whatever stands in the list was set so; each name stands once and in
        // its place, and the counts are right.
        &&& forall|i: int|
            0 <= i < named.len() ==> {
                let (name, value) = ((#[trigger] named[i]).name, named[i].value);
                ||| name == "preallocate"@ && self.preallocate is Some && value
                    == OptionValueSpec::Bool(self.preallocate->0)
                ||| name == "memory_fraction"@ && self.memory_fraction is Some && value
                    == OptionValueSpec::Float(self.memory_fraction->0)
                ||| name == "eager_load_executable_modules"@
                    && self.eager_load_executable_modules is Some && value
                    == OptionValueSpec::Bool(self.eager_load_executable_modules->0)
                ||| name == "allocator"@ && self.allocator is Some && value
                    == OptionValueSpec::Text(self.allocator->0.spelling())
                ||| name == "staging_threshold_bytes"@ && self.staging_threshold_bytes is Some
                    && value == OptionValueSpec::Int64(self.staging_threshold_bytes->0)
            }
        &&& forall|i: int, j: int|
            0 <= i < j < named.len() ==> place((#[trigger] named[i]).name) < place(
                (#[trigger] named[j]).name,
            )
        &&& forall|i: int|
            0 <= i < named.len() ==> {
                &&& (#[trigger] named[i]).name_size == named[i].name.len()
                &&& named[i].value_size == match named[i].value {
                    OptionValueSpec::Text(text) => text.len(),
                    _ => 1,
                }
            }
    }
}

/// Whatever the options are, the plugin finds under each name what was set in
/// the field of that name, whatever the other fields are: `Bool(p)` under
/// `preallocate` exactly if `preallocate` is `Some(p)`, nothing exactly if it is
/// `None`, and so on; a kind of allocator under its spelling.
pub proof fn law_options_are_given_as_set(options: SessionOptions)
    ensures
        options.given_as(options.named()),
{
    let named = options.named();
    lemma_names_differ();
    options.lemma_found("preallocate"@);
    options.lemma_found("memory_fraction"@);
    options.lemma_found("eager_load_executable_modules"@);
    options.lemma_found("allocator"@);
    options.lemma_found("staging_threshold_bytes"@);
    let one = named_option("preallocate"@, options.preallocate_value());
    let two = one + named_option("memory_fraction"@, options.memory_fraction_value());
    let three = two + named_option("eager_load_executable_modules"@, options.eager_load_value());
    let four = three + named_option("allocator"@, options.allocator_value());
    assert(named =~= four + named_option(
        "staging_threshold_bytes"@,
        options.staging_threshold_value(),
    ));
}

/// Two options that differ in one field alone are given to the plugin alike
/// under every other name.
pub proof fn law_options_do_not_mix(one: SessionOptions, two: SessionOptions)
    ensures
        one.preallocate == two.preallocate ==> found(one.named(), "preallocate"@) == found(
            two.named(),
            "preallocate"@,
        ),
        one.memory_fraction == two.memory_fraction ==> found(one.named(), "memory_fraction"@)
            == found(two.named(), "memory_fraction"@),
        one.eager_load_executable_modules == two.eager_load_executable_modules ==> found(
            one.named(),
            "eager_load_executable_modules"@,
        ) == found(two.named(), "eager_load_executable_modules"@),
        one.allocator == two.allocator ==> found(one.named(), "allocator"@) == found(
            two.named(),
            "allocator"@,
        ),
        one.staging_threshold_bytes == two.staging_threshold_bytes ==> found(
            one.named(),
            "staging_threshold_bytes"@,
        ) == found(two.named(), "staging_threshold_bytes"@),
{
    law_options_are_found_by_name(one);
    law_options_are_found_by_name(two);
}

/// The value of a named value is seen as it is: its name, the two counts, and
/// the value with its type.
pub proof fn law_named_values_are_seen_as_they_are(named: NamedValue)
    ensures
        named.deep_view().name == named.name@,
        named.deep_view().name_size == named.name_size,
        named.deep_view().value_size == named.value_size,
        named.value matches OptionValue::Bool(value) ==> named.deep_view().value
            == OptionValueSpec::Bool(value),
        named.value matches OptionValue::Float(value) ==> named.deep_view().value
            == OptionValueSpec::Float(value),
        named.value matches OptionValue::Int64(value) ==> named.deep_view().value
            == OptionValueSpec::Int64(value),
        named.value matches OptionValue::Text(value) ==> named.deep_view().value
            == OptionValueSpec::Text(value@),
{
}

/// Options that leave every choice to the plugin name nothing.
pub proof fn law_unset_options_name_nothing()
    ensures
        SessionOptions::unset().preallocate is None,
        SessionOptions::unset().memory_fraction is None,
        SessionOptions::unset().eager_load_executable_modules is None,
        SessionOptions::unset().staging_threshold_bytes is None,
        SessionOptions::unset().allocator is None,
        SessionOptions::unset().named() == Seq::<NamedValueSpec>::empty(),
{
    assert(SessionOptions::unset().named() =~= Seq::<NamedValueSpec>::empty());
}

/// Each kind has a spelling of its own.
pub proof fn law_spellings_are_distinct(one: AllocatorKind, two: AllocatorKind)
    ensures
        one.spelling() == two.spelling() <==> one == two,
{
    reveal_strlit("default");
    reveal_strlit("platform");
    reveal_strlit("bfc");
    reveal_strlit("cuda_async");
    reveal_strlit("vmm");
    let (first, second) = (one.spelling(), two.spelling());
    if one != two {
        assert(first.len() != second.len() || first[0] != second[0]);
    }
}

/// Different options are given to the plugin differently: the named values
/// lose nothing.
pub proof fn law_named_values_tell_the_options(one: SessionOptions, two: SessionOptions)
    requires
        one.named() == two.named(),
    ensures
        one == two,
{
    law_options_are_found_by_name(one);
    law_options_are_found_by_name(two);
    if let (Some(first), Some(second)) = (one.allocator, two.allocator) {
        law_spellings_are_distinct(first, second);
    }
}

} // verus!
