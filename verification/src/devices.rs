use vstd::prelude::*;
use vstd::string::StringExecFns;

use crate::text::{
    opt_view,
    char_rows,
    chars_eq,
    chars_of,
    contains,
    contains_chars,
    lines,
    lowercase_chars,
    lowercase_of,
    lowercase_string,
    slice_of,
    split_lines,
    starts_with,
    starts_with_chars,
    string_of,
    trim,
    trim_chars,
    lex_le,
    lex_le_chars,
    lemma_lex_total,
    lemma_lex_transitive,
};
use crate::order::{
    is_total,
    is_transitive,
    sort_by,
    insert_pos,
    insert_sorted,
    lemma_insert_pos,
    lemma_insert_pos_unique,
    lemma_insertion_step,
    lemma_sort_by,
    lemma_sort_by_map,
    sorted_by,
};

verus! {

/// What kind of signal an input route carries.
#[derive(Clone, Copy, Debug, PartialEq, Eq, Structural)]
pub enum AudioInputKind {
    Microphone,
    System,
    Other,
}

/// One entry of the input picker: a route id, the label shown for it, and its kind.
#[derive(Clone, Debug, PartialEq, Eq)]
pub struct AudioInputOption {
    pub id: String,
    pub label: String,
    pub kind: AudioInputKind,
}

/// The plain content of an [`AudioInputOption`].
pub struct InputOptionView {
    pub id: Seq<char>,
    pub label: Seq<char>,
    pub kind: AudioInputKind,
}

impl View for AudioInputOption {
    type V = InputOptionView;

    open spec fn view(&self) -> InputOptionView {
        InputOptionView { id: self.id@, label: self.label@, kind: self.kind }
    }
}

/// A lowercased name that names a loopback or monitor of the system's output.
pub open spec fn has_system_marker(lowered: Seq<char>) -> bool {
    ||| contains(lowered, "monitor"@)
    ||| contains(lowered, "loopback"@)
    ||| contains(lowered, "stereo mix"@)
    ||| contains(lowered, "what u hear"@)
    ||| contains(lowered, "blackhole"@)
    ||| contains(lowered, "soundflower"@)
}

/// A lowercased name that looks like a microphone or a capture route.
pub open spec fn has_microphone_marker(lowered: Seq<char>) -> bool {
    ||| contains(lowered, "alsa_input"@)
    ||| contains(lowered, "microphone"@)
    ||| contains(lowered, " mic"@)
    ||| contains(lowered, "mono-fallback"@)
    ||| contains(lowered, "multichannel-input"@)
    ||| contains(lowered, "capture"@)
}

/// The kind of an input named `name` whose lowercase form is `lowered`: system markers
/// win, then microphone markers or being the system's default input, and everything
/// else is `Other`.
pub open spec fn kind_from_lowered(
    lowered: Seq<char>,
    name: Seq<char>,
    default_name: Option<Seq<char>>,
) -> AudioInputKind {
    if has_system_marker(lowered) {
        AudioInputKind::System
    } else if has_microphone_marker(lowered) || default_name == Some(name) {
        AudioInputKind::Microphone
    } else {
        AudioInputKind::Other
    }
}

/// The kind of an input named `name`, judged on its lowercase form.
pub open spec fn input_kind_of(name: Seq<char>, default_name: Option<Seq<char>>) -> AudioInputKind {
    kind_from_lowered(lowercase_of(name), name, default_name)
}

/// The plain content of an optional string slice.
pub open spec fn opt_str_view(s: Option<&str>) -> Option<Seq<char>> {
    match s {
        Some(d) => Some(d@),
        None => None,
    }
}

fn contains_literal(hay: &Vec<char>, needle: &str) -> (b: bool)
    ensures
        b == contains(hay@, needle@),
{
    let n = chars_of(needle);
    contains_chars(hay, &n)
}

/// The kind of an input named `name`, given its lowercase form `lowered`.
pub fn input_kind_from_lowered(lowered: &str, name: &str, default_name: Option<&str>) -> (kind:
    AudioInputKind)
    ensures
        kind == kind_from_lowered(lowered@, name@, opt_str_view(default_name)),
{
    let lowered = chars_of(lowered);
    let system = contains_literal(&lowered, "monitor") || contains_literal(&lowered, "loopback")
        || contains_literal(&lowered, "stereo mix") || contains_literal(&lowered, "what u hear")
        || contains_literal(&lowered, "blackhole") || contains_literal(&lowered, "soundflower");
    let is_default = match default_name {
        Some(d) => {
            let d_chars = chars_of(d);
            let name_chars = chars_of(name);
            chars_eq(&d_chars, &name_chars)
        },
        None => false,
    };
    let microphone = contains_literal(&lowered, "alsa_input") || contains_literal(
        &lowered,
        "microphone",
    ) || contains_literal(&lowered, " mic") || contains_literal(&lowered, "mono-fallback")
        || contains_literal(&lowered, "multichannel-input") || contains_literal(&lowered, "capture")
        || is_default;
    if system {
        AudioInputKind::System
    } else if microphone {
        AudioInputKind::Microphone
    } else {
        AudioInputKind::Other
    }
}

/// Sorts an input name into microphone, system capture, or other.
pub fn classify_input_kind(name: &str, default_name: Option<&str>) -> (kind: AudioInputKind)
    ensures
        kind == input_kind_of(name@, opt_str_view(default_name)),
{
    let lowered = lowercase_string(name);
    input_kind_from_lowered(lowered.as_str(), name, default_name)
}

/// The tag that opens an input's label.
pub open spec fn kind_tag(kind: AudioInputKind) -> Seq<char> {
    match kind {
        AudioInputKind::Microphone => "Mic"@,
        AudioInputKind::System => "System"@,
        AudioInputKind::Other => "Input"@,
    }
}

/// `"<tag> • <name>"`, with `" (Default)"` after it for the default route.
pub open spec fn input_label(name: Seq<char>, kind: AudioInputKind, is_default: bool) -> Seq<char> {
    kind_tag(kind) + " • "@ + name + if is_default {
        " (Default)"@
    } else {
        Seq::<char>::empty()
    }
}

/// The label shown for an input in the picker.
pub fn format_input_label(name: &str, kind: AudioInputKind, is_default: bool) -> (label: String)
    ensures
        label@ == input_label(name@, kind, is_default),
{
    let tag = match kind {
        AudioInputKind::Microphone => "Mic",
        AudioInputKind::System => "System",
        AudioInputKind::Other => "Input",
    };
    let mut label = String::new();
    label.append(tag);
    label.append(" • ");
    label.append(name);
    if is_default {
        label.append(" (Default)");
    }
    assert(label@ =~= input_label(name@, kind, is_default));
    label
}


/// The plain contents of a list of input options.
pub open spec fn option_views(s: Seq<AudioInputOption>) -> Seq<InputOptionView> {
    s.map_values(|o: AudioInputOption| o@)
}

/// Route-id prefix of the inputs that go through Pulse/PipeWire.
pub open spec fn pulse_prefix() -> Seq<char> {
    "pulse::"@
}

/// Pulse's aliases for whatever source or monitor is currently the default: they are
/// offered once, under their own labels, and never as a listed source.
pub open spec fn is_default_alias(name: Seq<char>) -> bool {
    name == "@DEFAULT_SOURCE@"@ || name == "@DEFAULT_MONITOR@"@
}

/// The option for one `pactl list sources` block with this `Name:` and `Description:`,
/// if it yields one: a block without a name, or naming a default alias, yields none. The
/// label uses the description unless it is blank, and the kind is judged on the name
/// and the label together.
pub open spec fn pulse_source_option(
    name: Option<Seq<char>>,
    description: Option<Seq<char>>,
) -> Option<InputOptionView> {
    match name {
        None => None,
        Some(n) => if is_default_alias(n) {
            None
        } else {
            let label_name = match description {
                Some(d) => if trim(d).len() > 0 {
                    d
                } else {
                    n
                },
                None => n,
            };
            let kind = input_kind_of(n + " "@ + label_name, None);
            Some(
                InputOptionView {
                    id: pulse_prefix() + n,
                    label: input_label(label_name, kind, false),
                    kind,
                },
            )
        },
    }
}

/// `options` with the option of one source block appended, if the block yields one.
pub open spec fn with_pulse_source(
    options: Seq<InputOptionView>,
    name: Option<Seq<char>>,
    description: Option<Seq<char>>,
) -> Seq<InputOptionView> {
    match pulse_source_option(name, description) {
        Some(o) => options.push(o),
        None => options,
    }
}

fn literal_eq(v: &Vec<char>, lit: &str) -> (b: bool)
    ensures
        b == (v@ == lit@),
{
    let l = chars_of(lit);
    chars_eq(v, &l)
}

/// Appends the option of one `pactl list sources` block, if it yields one.
pub fn push_pulse_source_option(
    options: &mut Vec<AudioInputOption>,
    name: Option<String>,
    description: Option<String>,
)
    ensures
        option_views(final(options)@) == with_pulse_source(
            option_views(old(options)@),
            opt_view(name),
            opt_view(description),
        ),
{
    let name = match name {
        Some(n) => n,
        None => {
            return ;
        },
    };
    let name_chars = chars_of(name.as_str());
    if literal_eq(&name_chars, "@DEFAULT_SOURCE@") || literal_eq(&name_chars, "@DEFAULT_MONITOR@") {
        return ;
    }
    let label_name = match description {
        Some(d) => {
            let d_chars = chars_of(d.as_str());
            if trim_chars(&d_chars).len() > 0 {
                d
            } else {
                name.clone()
            }
        },
        None => name.clone(),
    };
    let mut combined = name.clone();
    combined.append(" ");
    combined.append(label_name.as_str());
    let kind = classify_input_kind(combined.as_str(), None);
    let mut id = String::new();
    id.append("pulse::");
    id.append(name.as_str());
    let label = format_input_label(label_name.as_str(), kind, false);
    let ghost before = options@;
    options.push(AudioInputOption { id, label, kind });
    assert(option_views(options@) =~= option_views(before).push(options@.last()@));
}

/// What the `pactl` parser holds between lines: the options so far, and the `Name:` and
/// `Description:` of the block being read.
pub type PulseParseState = (Seq<InputOptionView>, Option<Seq<char>>, Option<Seq<char>>);

/// One line of `pactl list sources`, read after trimming: a `Source #` header closes the
/// block before it, and `Name:` / `Description:` lines record the (trimmed) value after
/// the colon; every other line is ignored.
pub open spec fn parse_step(state: PulseParseState, line: Seq<char>) -> PulseParseState {
    let t = trim(line);
    if starts_with(t, "Source #"@) {
        (with_pulse_source(state.0, state.1, state.2), None, None)
    } else if starts_with(t, "Name:"@) {
        (state.0, Some(trim(t.skip("Name:"@.len() as int))), state.2)
    } else if starts_with(t, "Description:"@) {
        (state.0, state.1, Some(trim(t.skip("Description:"@.len() as int))))
    } else {
        state
    }
}

/// The parser's state after reading `ls` in order.
pub open spec fn parse_lines(ls: Seq<Seq<char>>) -> PulseParseState
    decreases ls.len(),
{
    if ls.len() == 0 {
        (Seq::<InputOptionView>::empty(), None, None)
    } else {
        parse_step(parse_lines(ls.drop_last()), ls.last())
    }
}

/// The options listed by `pactl list sources` output `text`: one per source block, in
/// order, the last block closed by the end of the text.
pub open spec fn pulse_source_options(text: Seq<char>) -> Seq<InputOptionView> {
    let st = parse_lines(lines(text));
    with_pulse_source(st.0, st.1, st.2)
}

fn after_prefix(t: &Vec<char>, prefix: &str) -> (r: String)
    requires
        prefix@.len() <= t@.len(),
    ensures
        r@ == trim(t@.skip(prefix@.len() as int)),
{
    let p = chars_of(prefix);
    let rest = slice_of(t, p.len(), t.len());
    assert(rest@ =~= t@.skip(prefix@.len() as int));
    let trimmed = trim_chars(&rest);
    string_of(&trimmed)
}

/// Reads the sources out of `pactl list sources` output.
pub fn parse_pulse_source_input_options(text: &str) -> (options: Vec<AudioInputOption>)
    ensures
        option_views(options@) == pulse_source_options(text@),
{
    let chars = chars_of(text);
    let ls = split_lines(&chars);
    let mut options: Vec<AudioInputOption> = Vec::new();
    let mut name: Option<String> = None;
    let mut description: Option<String> = None;
    let source_header = chars_of("Source #");
    let name_key = chars_of("Name:");
    let description_key = chars_of("Description:");
    let mut k: usize = 0;
    proof {
        assert(char_rows(ls@).take(0) =~= Seq::<Seq<char>>::empty());
        assert(option_views(options@) =~= Seq::<InputOptionView>::empty());
    }
    while k < ls.len()
        invariant
            k <= ls.len(),
            char_rows(ls@) == lines(text@),
            source_header@ == "Source #"@,
            name_key@ == "Name:"@,
            description_key@ == "Description:"@,
            (option_views(options@), opt_view(name), opt_view(description)) == parse_lines(
                char_rows(ls@).take(k as int),
            ),
        decreases ls.len() - k,
    {
        let ghost rows = char_rows(ls@);
        proof {
            assert(rows.take(k + 1).drop_last() =~= rows.take(k as int));
            assert(rows.take(k + 1).last() == ls@[k as int]@);
        }
        let t = trim_chars(&ls[k]);
        if starts_with_chars(&t, &source_header) {
            let n = name;
            let d = description;
            push_pulse_source_option(&mut options, n, d);
            name = None;
            description = None;
        } else if starts_with_chars(&t, &name_key) {
            name = Some(after_prefix(&t, "Name:"));
        } else if starts_with_chars(&t, &description_key) {
            description = Some(after_prefix(&t, "Description:"));
        }
        k += 1;
    }
    proof {
        assert(char_rows(ls@).take(ls.len() as int) =~= char_rows(ls@));
    }
    push_pulse_source_option(&mut options, name, description);
    options
}


/// Route id of Pulse's default source.
pub open spec fn pulse_default_source_id() -> Seq<char> {
    "pulse::@DEFAULT_SOURCE@"@
}

/// Route id of Pulse's default monitor.
pub open spec fn pulse_default_monitor_id() -> Seq<char> {
    "pulse::@DEFAULT_MONITOR@"@
}

/// Microphones first, then system capture, then anything else.
pub open spec fn kind_rank(kind: AudioInputKind) -> u8 {
    match kind {
        AudioInputKind::Microphone => 0,
        AudioInputKind::System => 1,
        AudioInputKind::Other => 2,
    }
}

/// Pulse's default routes first, then other Pulse routes, then direct devices.
pub open spec fn route_rank(id: Seq<char>) -> u8 {
    if id == pulse_default_source_id() || id == pulse_default_monitor_id() {
        0
    } else if starts_with(id, pulse_prefix()) {
        1
    } else {
        2
    }
}

/// The key the picker's options are ordered by: kind, route, then lowercased label.
pub open spec fn option_key(o: InputOptionView) -> (u8, u8, Seq<char>) {
    (kind_rank(o.kind), route_rank(o.id), lowercase_of(o.label))
}

/// The order of `(u8, u8, String)` tuples: field by field.
pub open spec fn key_le(a: (u8, u8, Seq<char>), b: (u8, u8, Seq<char>)) -> bool {
    ||| a.0 < b.0
    ||| a.0 == b.0 && a.1 < b.1
    ||| a.0 == b.0 && a.1 == b.1 && lex_le(a.2, b.2)
}

/// Options ordered by their keys.
pub open spec fn option_le() -> spec_fn(InputOptionView, InputOptionView) -> bool {
    |a: InputOptionView, b: InputOptionView| key_le(option_key(a), option_key(b))
}

/// The options in the order of their keys, equal keys kept in the order given.
pub open spec fn sorted_options(options: Seq<InputOptionView>) -> Seq<InputOptionView> {
    sort_by(options, option_le())
}

/// The option order is a total preorder.
pub proof fn lemma_option_order()
    ensures
        is_total(option_le()),
        is_transitive(option_le()),
{
    assert forall|a: InputOptionView, b: InputOptionView| #[trigger]
        option_le()(a, b) || option_le()(b, a) by {
        lemma_lex_total(option_key(a).2, option_key(b).2);
    }
    assert forall|a: InputOptionView, b: InputOptionView, c: InputOptionView| #[trigger]
        option_le()(a, b) && #[trigger] option_le()(b, c) implies option_le()(a, c) by {
        if option_key(a).0 == option_key(b).0 && option_key(b).0 == option_key(c).0
            && option_key(a).1 == option_key(b).1 && option_key(b).1 == option_key(c).1 {
            lemma_lex_transitive(option_key(a).2, option_key(b).2, option_key(c).2);
        }
    }
}

fn starts_with_literal(v: &Vec<char>, lit: &str) -> (b: bool)
    ensures
        b == starts_with(v@, lit@),
{
    let l = chars_of(lit);
    starts_with_chars(v, &l)
}

/// The sort key of an option: `(kind rank, route rank, lowercased label)`.
pub fn input_option_sort_key(option: &AudioInputOption) -> (key: (u8, u8, String))
    ensures
        (key.0, key.1, key.2@) == option_key(option@),
{
    let kind_rank: u8 = match option.kind {
        AudioInputKind::Microphone => 0,
        AudioInputKind::System => 1,
        AudioInputKind::Other => 2,
    };
    let id = chars_of(option.id.as_str());
    let route_rank: u8 = if literal_eq(&id, "pulse::@DEFAULT_SOURCE@") || literal_eq(
        &id,
        "pulse::@DEFAULT_MONITOR@",
    ) {
        0
    } else if starts_with_literal(&id, "pulse::") {
        1
    } else {
        2
    };
    let label = chars_of(option.label.as_str());
    let lowered = lowercase_chars(&label);
    (kind_rank, route_rank, string_of(&lowered))
}

/// The plain content of a key held with its label as characters.
pub open spec fn key_view(k: (u8, u8, Vec<char>)) -> (u8, u8, Seq<char>) {
    (k.0, k.1, k.2@)
}

fn key_le_exec(a: &(u8, u8, Vec<char>), b: &(u8, u8, Vec<char>)) -> (r: bool)
    ensures
        r == key_le(key_view(*a), key_view(*b)),
{
    if a.0 != b.0 {
        a.0 < b.0
    } else if a.1 != b.1 {
        a.1 < b.1
    } else {
        lex_le_chars(&a.2, &b.2)
    }
}

/// An option together with the key it is sorted by.
pub type KeyedOption = (InputOptionView, (u8, u8, Seq<char>));

/// Keyed options ordered by their keys alone.
pub open spec fn keyed_le() -> spec_fn(KeyedOption, KeyedOption) -> bool {
    |a: KeyedOption, b: KeyedOption| key_le(a.1, b.1)
}

/// The options paired with their keys, place by place.
pub open spec fn keyed(options: Seq<InputOptionView>, keys: Seq<(u8, u8, Seq<char>)>) -> Seq<
    KeyedOption,
> {
    Seq::new(options.len(), |i: int| (options[i], keys[i]))
}

/// The options in the order of the given keys, equal keys kept in the order given.
pub open spec fn sorted_by_keys(
    options: Seq<InputOptionView>,
    keys: Seq<(u8, u8, Seq<char>)>,
) -> Seq<InputOptionView> {
    sort_by(keyed(options, keys), keyed_le()).map_values(|p: KeyedOption| p.0)
}

/// The order of keys is a total preorder.
pub proof fn lemma_keyed_order()
    ensures
        is_total(keyed_le()),
        is_transitive(keyed_le()),
{
    assert forall|a: KeyedOption, b: KeyedOption| #[trigger]
        keyed_le()(a, b) || keyed_le()(b, a) by {
        lemma_lex_total(a.1.2, b.1.2);
    }
    assert forall|a: KeyedOption, b: KeyedOption, c: KeyedOption| #[trigger]
        keyed_le()(a, b) && #[trigger] keyed_le()(b, c) implies keyed_le()(a, c) by {
        if a.1.0 == b.1.0 && b.1.0 == c.1.0 && a.1.1 == b.1.1 && b.1.1 == c.1.1 {
            lemma_lex_transitive(a.1.2, b.1.2, c.1.2);
        }
    }
}

/// The options and keys, paired place by place.
pub open spec fn pairs_of(options: Seq<AudioInputOption>, keys: Seq<(u8, u8, Vec<char>)>) -> Seq<
    KeyedOption,
> {
    Seq::new(options.len(), |i: int| (options[i]@, key_view(keys[i])))
}

proof fn lemma_pairs_move(
    keys: Seq<(u8, u8, Vec<char>)>,
    options: Seq<AudioInputOption>,
    i: int,
    j: int,
)
    requires
        keys.len() == options.len(),
        0 <= i < keys.len(),
        0 <= j < keys.len(),
    ensures
        pairs_of(options.remove(i).insert(j, options[i]), keys.remove(i).insert(j, keys[i]))
            == pairs_of(options, keys).remove(i).insert(j, pairs_of(options, keys)[i]),
        pairs_of(options.remove(i), keys.remove(i)) == pairs_of(options, keys).remove(i),
{
    assert(pairs_of(options.remove(i).insert(j, options[i]), keys.remove(i).insert(j, keys[i]))
        =~= pairs_of(options, keys).remove(i).insert(j, pairs_of(options, keys)[i]));
    assert(pairs_of(options.remove(i), keys.remove(i)) =~= pairs_of(options, keys).remove(i));
}

/// Sorts `options` by `keys` (one per option, in the same order), keeping the order of
/// options with equal keys.
pub fn sort_input_options_by_keys(
    options: &mut Vec<AudioInputOption>,
    keys: &Vec<(u8, u8, String)>,
)
    requires
        keys.len() == old(options).len(),
    ensures
        option_views(final(options)@) == sorted_by_keys(
            option_views(old(options)@),
            keys@.map_values(|k: (u8, u8, String)| (k.0, k.1, k.2@)),
        ),
{
    let n = options.len();
    let mut ks: Vec<(u8, u8, Vec<char>)> = Vec::new();
    let mut k: usize = 0;
    while k < n
        invariant
            k <= n == options.len() == keys.len(),
            ks.len() == k,
            forall|m: int| 0 <= m < k ==> key_view(#[trigger] ks@[m]) == (
                keys@[m].0,
                keys@[m].1,
                keys@[m].2@,
            ),
        decreases n - k,
    {
        let key = &keys[k];
        ks.push((key.0, key.1, chars_of(key.2.as_str())));
        k += 1;
    }
    let ghost orig = pairs_of(options@, ks@);
    proof {
        assert(orig =~= keyed(
            option_views(options@),
            keys@.map_values(|k: (u8, u8, String)| (k.0, k.1, k.2@)),
        ));
        assert(orig.take(0) =~= Seq::<KeyedOption>::empty());
        assert(orig.skip(0) =~= orig);
    }
    let mut i: usize = 0;
    while i < n
        invariant
            i <= n == options.len() == ks.len(),
            orig.len() == n,
            pairs_of(options@, ks@).take(i as int) == sort_by(orig.take(i as int), keyed_le()),
            pairs_of(options@, ks@).skip(i as int) == orig.skip(i as int),
        decreases n - i,
    {
        let ghost before_keys = ks@;
        let ghost before_opts = options@;
        let ghost before = pairs_of(options@, ks@);
        let ghost t = before.take(i as int);
        let x = options.remove(i);
        let kx = ks.remove(i);
        proof {
            lemma_pairs_move(before_keys, before_opts, i as int, i as int);
        }
        let mut j = i;
        while j > 0 && !key_le_exec(&ks[j - 1], &kx)
            invariant
                j <= i < n,
                before_keys.len() == n,
                before_opts.len() == n,
                ks@ == before_keys.remove(i as int),
                options@ == before_opts.remove(i as int),
                before == pairs_of(before_opts, before_keys),
                t == before.take(i as int),
                before[i as int] == (x@, key_view(kx)),
                forall|m: int| j <= m < i ==> !keyed_le()(#[trigger] t[m], before[i as int]),
            decreases j,
        {
            proof {
                assert(ks@[j - 1] == before_keys[j - 1]);
                assert(t[j - 1] == before[j - 1]);
            }
            j -= 1;
        }
        proof {
            if j > 0 {
                assert(ks@[j - 1] == before_keys[j - 1]);
                assert(t[j - 1] == before[j - 1]);
            }
            lemma_insert_pos_unique(t, before[i as int], keyed_le(), j as int);
            lemma_insertion_step(before, orig, i as int, j as int, keyed_le());
        }
        options.insert(j, x);
        ks.insert(j, kx);
        proof {
            lemma_pairs_move(before_keys, before_opts, i as int, j as int);
        }
        i += 1;
    }
    proof {
        assert(pairs_of(options@, ks@).take(n as int) =~= pairs_of(options@, ks@));
        assert(orig.take(n as int) =~= orig);
        assert(option_views(options@) =~= pairs_of(options@, ks@).map_values(
            |p: KeyedOption| p.0,
        ));
    }
}

/// `options.sort_by_key(input_option_sort_key)`: the stable sort by key.
pub fn sort_input_options(options: &mut Vec<AudioInputOption>)
    ensures
        option_views(final(options)@) == sorted_options(option_views(old(options)@)),
{
    let ghost views = option_views(options@);
    let mut keys: Vec<(u8, u8, String)> = Vec::new();
    let mut k: usize = 0;
    while k < options.len()
        invariant
            k <= options.len(),
            views == option_views(options@),
            keys.len() == k,
            forall|m: int| 0 <= m < k ==> (#[trigger] keys@[m].0, keys@[m].1, keys@[m].2@)
                == option_key(views[m]),
        decreases options.len() - k,
    {
        keys.push(input_option_sort_key(&options[k]));
        k += 1;
    }
    let ghost key_seq = keys@.map_values(|k: (u8, u8, String)| (k.0, k.1, k.2@));
    sort_input_options_by_keys(options, &keys);
    proof {
        let pairs = keyed(views, key_seq);
        assert(pairs =~= views.map_values(|o: InputOptionView| (o, option_key(o))));
        lemma_keyed_order();
        assert forall|i: int, j: int| 0 <= i < pairs.len() && 0 <= j < pairs.len() implies
            keyed_le()(#[trigger] pairs[i], #[trigger] pairs[j]) == option_le()(
            pairs[i].0,
            pairs[j].0,
        ) by {
            assert(key_seq[i] == option_key(views[i]));
            assert(key_seq[j] == option_key(views[j]));
        }
        lemma_sort_by_map(pairs, |p: KeyedOption| p.0, option_le(), keyed_le());
        assert(pairs.map_values(|p: KeyedOption| p.0) =~= views);
    }
}

/// The contents of a list of strings.
pub open spec fn string_views(s: Seq<String>) -> Seq<Seq<char>> {
    s.map_values(|x: String| x@)
}

/// The route ids of a list of options.
pub open spec fn option_ids(s: Seq<InputOptionView>) -> Seq<Seq<char>> {
    s.map_values(|o: InputOptionView| o.id)
}

/// `options` with `option` appended unless an option with its id is already there.
pub open spec fn push_unique(options: Seq<InputOptionView>, option: InputOptionView) -> Seq<
    InputOptionView,
> {
    if option_ids(options).contains(option.id) {
        options
    } else {
        options.push(option)
    }
}

fn seen_contains(seen: &Vec<String>, id: &String) -> (b: bool)
    ensures
        b == string_views(seen@).contains(id@),
{
    let mut k: usize = 0;
    while k < seen.len()
        invariant
            k <= seen.len(),
            forall|m: int| 0 <= m < k ==> seen@[m]@ != id@,
        decreases seen.len() - k,
    {
        if seen[k] == *id {
            assert(string_views(seen@)[k as int] == id@);
            return true;
        }
        k += 1;
    }
    assert forall|m: int| 0 <= m < string_views(seen@).len() implies string_views(seen@)[m]
        != id@ by {
        assert(string_views(seen@)[m] == seen@[m]@);
    }
    false
}

/// Appends `option` unless its route id has been seen; `seen` records the ids appended.
///
/// `seen` is a list rather than a hash set: vstd's `HashSet` specifications hold only for
/// key types known to obey its key model, which vstd establishes for integer keys and not
/// for `String`, so neither membership nor insertion could be stated of a
/// `HashSet<String>`. Over the list both are exact.
pub fn push_unique_input(
    options: &mut Vec<AudioInputOption>,
    seen: &mut Vec<String>,
    option: AudioInputOption,
)
    ensures
        string_views(old(seen)@).contains(option@.id) ==> {
            &&& final(options)@ == old(options)@
            &&& final(seen)@ == old(seen)@
        },
        !string_views(old(seen)@).contains(option@.id) ==> {
            &&& final(options)@ == old(options)@.push(option)
            &&& string_views(final(seen)@) == string_views(old(seen)@).push(option@.id)
        },
{
    if !seen_contains(seen, &option.id) {
        let ghost old_seen = seen@;
        seen.push(option.id.clone());
        assert(string_views(seen@) =~= string_views(old_seen).push(option@.id));
        options.push(option);
    }
}

/// Whether a cpal device is only the audio server's own entry point (ALSA's `default`,
/// `pulse` or `pipewire` plugin), which duplicates routes Pulse already lists.
pub open spec fn is_audio_server_proxy(id: Seq<char>, name: Seq<char>) -> bool {
    is_proxy_lowered(lowercase_of(id), lowercase_of(name))
}

/// Whether a cpal device is the audio server's proxy, judged on the lowercase forms
/// of its id and name.
pub open spec fn is_proxy_lowered(lowered_id: Seq<char>, lowered_name: Seq<char>) -> bool {
    let lowered = lowered_id + " "@ + lowered_name;
    ||| contains(lowered, "compat::default"@)
    ||| contains(lowered, "compat::pulse"@)
    ||| contains(lowered, "compat::pipewire"@)
    ||| lowered == "cpal::default default"@
    ||| lowered == "cpal::pulse pulse"@
    ||| lowered == "cpal::pipewire pipewire"@
}

/// Recognizes an audio server's proxy from the lowercase forms of its id and name.
pub fn is_audio_server_proxy_lowered(lowered_id: &str, lowered_name: &str) -> (b: bool)
    ensures
        b == is_proxy_lowered(lowered_id@, lowered_name@),
{
    let mut lowered = chars_of(lowered_id);
    lowered.push(' ');
    let mut name_part = chars_of(lowered_name);
    lowered.append(&mut name_part);
    assert(lowered@ =~= lowered_id@ + " "@ + lowered_name@) by {
        reveal_strlit(" ");
    };
    contains_literal(&lowered, "compat::default") || contains_literal(&lowered, "compat::pulse")
        || contains_literal(&lowered, "compat::pipewire") || literal_eq(
        &lowered,
        "cpal::default default",
    ) || literal_eq(&lowered, "cpal::pulse pulse") || literal_eq(
        &lowered,
        "cpal::pipewire pipewire",
    )
}

/// Recognizes the cpal devices that are the audio server's proxies.
pub fn is_cpal_audio_server_proxy(id: &str, name: &str) -> (b: bool)
    ensures
        b == is_audio_server_proxy(id@, name@),
{
    let lowered_id = lowercase_string(id);
    let lowered_name = lowercase_string(name);
    is_audio_server_proxy_lowered(lowered_id.as_str(), lowered_name.as_str())
}

/// Depth of the monitor ring: 30 ms of audio, and never under 256 samples.
pub fn low_latency_monitor_ring_len(sample_rate: u32) -> (len: usize)
    requires
        sample_rate as int * 3 <= usize::MAX,
    ensures
        len == if sample_rate as int * 3 / 100 >= 256 {
            sample_rate as int * 3 / 100
        } else {
            256
        },
{
    let len = sample_rate as usize * 3 / 100;
    if len >= 256 {
        len
    } else {
        256
    }
}

/// The buffer sizes a device reports it supports.
#[derive(Clone, Copy, Debug, PartialEq, Eq)]
pub enum SupportedBufferRange {
    Range { min: u32, max: u32 },
    Unknown,
}

/// The buffer size to ask a device for.
#[derive(Clone, Copy, Debug, PartialEq, Eq)]
pub enum BufferRequest {
    Fixed(u32),
    Default,
}

/// Frames per buffer that the low-latency paths aim for.
pub const LOW_LATENCY_TARGET_FRAMES: u32 = 256;

/// The target buffer size clamped into the device's range, or the device's default when
/// it reports none.
pub fn preferred_low_latency_buffer(range: &SupportedBufferRange) -> (request: BufferRequest)
    requires
        *range matches SupportedBufferRange::Range { min, max } ==> min <= max,
    ensures
        request == match *range {
            SupportedBufferRange::Range { min, max } => BufferRequest::Fixed(
                if LOW_LATENCY_TARGET_FRAMES < min {
                    min
                } else if LOW_LATENCY_TARGET_FRAMES > max {
                    max
                } else {
                    LOW_LATENCY_TARGET_FRAMES
                },
            ),
            SupportedBufferRange::Unknown => BufferRequest::Default,
        },
{
    match range {
        SupportedBufferRange::Range { min, max } => {
            let requested = if LOW_LATENCY_TARGET_FRAMES < *min {
                *min
            } else if LOW_LATENCY_TARGET_FRAMES > *max {
                *max
            } else {
                LOW_LATENCY_TARGET_FRAMES
            };
            BufferRequest::Fixed(requested)
        },
        SupportedBufferRange::Unknown => BufferRequest::Default,
    }
}


/// A capture device as cpal lists it: its route id and its display name.
pub struct CpalInput {
    pub id: String,
    pub name: String,
}

/// The plain contents of a device list.
pub open spec fn cpal_input_views(s: Seq<CpalInput>) -> Seq<(Seq<char>, Seq<char>)> {
    s.map_values(|d: CpalInput| (d.id@, d.name@))
}

/// The plain contents of an optional device list.
pub open spec fn devices_view(devices: Option<Vec<CpalInput>>) -> Option<Seq<(Seq<char>, Seq<char>)>> {
    match devices {
        Some(d) => Some(cpal_input_views(d@)),
        None => None,
    }
}

/// A device on its way into the picker: route id, name, kind, and whether it is the
/// system's default input.
pub struct DeviceEntry {
    pub id: String,
    pub name: String,
    pub kind: AudioInputKind,
    pub is_default: bool,
}

/// The plain content of a [`DeviceEntry`].
pub type EntryView = (Seq<char>, Seq<char>, AudioInputKind, bool);

pub open spec fn entry_views(s: Seq<DeviceEntry>) -> Seq<EntryView> {
    s.map_values(|e: DeviceEntry| (e.id@, e.name@, e.kind, e.is_default))
}

/// The devices in order, each classified against the default input's name and marked if
/// it is the default; when Pulse is available the audio server's proxies are left out,
/// since Pulse's own routes cover them.
pub open spec fn device_entries(
    devices: Seq<(Seq<char>, Seq<char>)>,
    pulse_available: bool,
    default_name: Option<Seq<char>>,
    default_id: Option<Seq<char>>,
) -> Seq<EntryView>
    decreases devices.len(),
{
    if devices.len() == 0 {
        Seq::<EntryView>::empty()
    } else {
        let before = device_entries(devices.drop_last(), pulse_available, default_name, default_id);
        let (id, name) = devices.last();
        if pulse_available && is_audio_server_proxy(id, name) {
            before
        } else {
            before.push((id, name, input_kind_of(name, default_name), default_id == Some(id)))
        }
    }
}

/// A device that may stand in as the microphone: not system capture, and (when
/// `need_default`) the default input.
pub open spec fn is_fallback_candidate(e: EntryView, need_default: bool) -> bool {
    e.2 != AudioInputKind::System && (!need_default || e.3)
}

/// Index of the first fallback candidate.
pub open spec fn first_candidate(entries: Seq<EntryView>, need_default: bool) -> Option<int>
    decreases entries.len(),
{
    if entries.len() == 0 {
        None
    } else if is_fallback_candidate(entries[0], need_default) {
        Some(0)
    } else {
        match first_candidate(entries.drop_first(), need_default) {
            Some(k) => Some(k + 1),
            None => None,
        }
    }
}

/// Some device is classified as a microphone.
pub open spec fn has_microphone(entries: Seq<EntryView>) -> bool {
    exists|i: int| 0 <= i < entries.len() && (#[trigger] entries[i]).2 == AudioInputKind::Microphone
}

/// When no device looks like a microphone, the default input (or else the first device
/// that is not system capture) is marked as one, so the picker never hides every device.
pub open spec fn with_fallback_microphone(entries: Seq<EntryView>) -> Seq<EntryView> {
    if has_microphone(entries) {
        entries
    } else {
        let pick = match first_candidate(entries, true) {
            Some(i) => Some(i),
            None => first_candidate(entries, false),
        };
        match pick {
            Some(i) => entries.update(
                i,
                (entries[i].0, entries[i].1, AudioInputKind::Microphone, entries[i].3),
            ),
            None => entries,
        }
    }
}

/// The picker option for a device.
pub open spec fn entry_option(e: EntryView) -> InputOptionView {
    InputOptionView { id: e.0, label: input_label(e.1, e.2, e.3), kind: e.2 }
}

/// The options offered for Pulse's default source.
pub open spec fn default_source_option() -> InputOptionView {
    InputOptionView {
        id: pulse_default_source_id(),
        label: "Mic • Default microphone (Pulse/PipeWire)"@,
        kind: AudioInputKind::Microphone,
    }
}

/// The options offered for Pulse's default monitor.
pub open spec fn default_monitor_option() -> InputOptionView {
    InputOptionView {
        id: pulse_default_monitor_id(),
        label: "System • Default monitor (Pulse/PipeWire)"@,
        kind: AudioInputKind::System,
    }
}

/// Route id of the loopback capture of the system's default output.
pub open spec fn loopback_id() -> Seq<char> {
    "cpal-loopback::@DEFAULT_OUTPUT@"@
}

/// The option offered for capturing what the default output device named `name` plays.
pub open spec fn loopback_option(name: Seq<char>) -> InputOptionView {
    InputOptionView {
        id: loopback_id(),
        label: "System • "@ + name + " (WASAPI loopback)"@,
        kind: AudioInputKind::System,
    }
}

/// `options` with each of `incoming` appended in turn unless its id is already there.
pub open spec fn push_all_unique(
    options: Seq<InputOptionView>,
    incoming: Seq<InputOptionView>,
) -> Seq<InputOptionView>
    decreases incoming.len(),
{
    if incoming.len() == 0 {
        options
    } else {
        push_unique(push_all_unique(options, incoming.drop_last()), incoming.last())
    }
}

/// The options the picker offers, before duplicates are dropped: with Pulse, its default
/// source, its listed sources and its default monitor; then the loopback of the default
/// output, where the system offers one (`loopback_output` names that device); then the
/// cpal devices.
pub open spec fn offered_inputs(
    pulse_available: bool,
    pulse_sources: Seq<InputOptionView>,
    loopback_output: Option<Seq<char>>,
    devices: Option<Seq<(Seq<char>, Seq<char>)>>,
    default_name: Option<Seq<char>>,
    default_id: Option<Seq<char>>,
) -> Seq<InputOptionView> {
    let pulse_part = if pulse_available {
        seq![default_source_option()] + pulse_sources + seq![default_monitor_option()]
    } else {
        Seq::<InputOptionView>::empty()
    };
    let device_part = match devices {
        Some(d) => with_fallback_microphone(
            device_entries(d, pulse_available, default_name, default_id),
        ).map_values(|e: EntryView| entry_option(e)),
        None => Seq::<InputOptionView>::empty(),
    };
    let loopback_part = match loopback_output {
        Some(name) => seq![loopback_option(name)],
        None => Seq::<InputOptionView>::empty(),
    };
    pulse_part + loopback_part + device_part
}

/// The picker's list: the offered inputs with repeated route ids dropped (the first
/// occurrence stays), sorted by kind, route and lowercased label.
pub open spec fn input_options(
    pulse_available: bool,
    pulse_sources: Seq<InputOptionView>,
    loopback_output: Option<Seq<char>>,
    devices: Option<Seq<(Seq<char>, Seq<char>)>>,
    default_name: Option<Seq<char>>,
    default_id: Option<Seq<char>>,
) -> Seq<InputOptionView> {
    sorted_options(
        push_all_unique(
            Seq::<InputOptionView>::empty(),
            offered_inputs(
                pulse_available,
                pulse_sources,
                loopback_output,
                devices,
                default_name,
                default_id,
            ),
        ),
    )
}

fn device_entries_of(
    devices: &Vec<CpalInput>,
    pulse_available: bool,
    default_name: &Option<String>,
    default_id: &Option<String>,
) -> (entries: Vec<DeviceEntry>)
    ensures
        entry_views(entries@) == device_entries(
            cpal_input_views(devices@),
            pulse_available,
            opt_view(*default_name),
            opt_view(*default_id),
        ),
{
    let ghost devs = cpal_input_views(devices@);
    let mut entries: Vec<DeviceEntry> = Vec::new();
    let mut i: usize = 0;
    proof {
        assert(devs.take(0) =~= Seq::<(Seq<char>, Seq<char>)>::empty());
        assert(entry_views(entries@) =~= Seq::<EntryView>::empty());
    }
    while i < devices.len()
        invariant
            i <= devices.len(),
            devs == cpal_input_views(devices@),
            entry_views(entries@) == device_entries(
                devs.take(i as int),
                pulse_available,
                opt_view(*default_name),
                opt_view(*default_id),
            ),
        decreases devices.len() - i,
    {
        let d = &devices[i];
        proof {
            assert(devs.take(i + 1).drop_last() =~= devs.take(i as int));
            assert(devs.take(i + 1).last() == (d.id@, d.name@));
        }
        if !(pulse_available && is_cpal_audio_server_proxy(d.id.as_str(), d.name.as_str())) {
            let default_name_str: Option<&str> = match default_name {
                Some(n) => Some(n.as_str()),
                None => None,
            };
            let kind = classify_input_kind(d.name.as_str(), default_name_str);
            let is_default = match default_id {
                Some(di) => *di == d.id,
                None => false,
            };
            let ghost before = entries@;
            entries.push(
                DeviceEntry { id: d.id.clone(), name: d.name.clone(), kind, is_default },
            );
            assert(entry_views(entries@) =~= entry_views(before).push(
                (d.id@, d.name@, kind, is_default),
            ));
        }
        i += 1;
    }
    proof {
        assert(devs.take(devices.len() as int) =~= devs);
    }
    entries
}

proof fn lemma_first_candidate(entries: Seq<EntryView>, need_default: bool, k: int)
    requires
        0 <= k <= entries.len(),
        forall|m: int| 0 <= m < k ==> !is_fallback_candidate(#[trigger] entries[m], need_default),
    ensures
        k < entries.len() && is_fallback_candidate(entries[k], need_default) ==> first_candidate(
            entries,
            need_default,
        ) == Some(k),
        k == entries.len() ==> first_candidate(entries, need_default) == None::<int>,
    decreases k,
{
    if k > 0 {
        assert forall|m: int| 0 <= m < k - 1 implies !is_fallback_candidate(
            #[trigger] entries.drop_first()[m],
            need_default,
        ) by {
            assert(entries.drop_first()[m] == entries[m + 1]);
        }
        lemma_first_candidate(entries.drop_first(), need_default, k - 1);
        if k < entries.len() {
            assert(entries.drop_first()[k - 1] == entries[k]);
        }
    }
}

fn find_candidate(entries: &Vec<DeviceEntry>, need_default: bool) -> (r: Option<usize>)
    ensures
        match r {
            Some(i) => first_candidate(entry_views(entries@), need_default) == Some(i as int) && i
                < entries.len(),
            None => first_candidate(entry_views(entries@), need_default) == None::<int>,
        },
{
    let ghost e = entry_views(entries@);
    let mut k: usize = 0;
    while k < entries.len()
        invariant
            k <= entries.len(),
            e == entry_views(entries@),
            forall|m: int| 0 <= m < k ==> !is_fallback_candidate(#[trigger] e[m], need_default),
        decreases entries.len() - k,
    {
        let kind = entries[k].kind;
        let is_default = entries[k].is_default;
        assert(e[k as int] == (entries@[k as int].id@, entries@[k as int].name@, kind, is_default));
        if kind != AudioInputKind::System && (!need_default || is_default) {
            proof {
                lemma_first_candidate(e, need_default, k as int);
            }
            return Some(k);
        }
        k += 1;
    }
    proof {
        lemma_first_candidate(e, need_default, k as int);
    }
    None
}

fn mark_fallback_microphone(entries: &mut Vec<DeviceEntry>)
    ensures
        entry_views(final(entries)@) == with_fallback_microphone(entry_views(old(entries)@)),
{
    let ghost e = entry_views(entries@);
    let mut k: usize = 0;
    while k < entries.len()
        invariant
            k <= entries.len(),
            e == entry_views(entries@),
            forall|m: int| 0 <= m < k ==> (#[trigger] e[m]).2 != AudioInputKind::Microphone,
        decreases entries.len() - k,
    {
        if entries[k].kind == AudioInputKind::Microphone {
            assert(e[k as int].2 == AudioInputKind::Microphone);
            return ;
        }
        k += 1;
    }
    assert(!has_microphone(e));
    let pick = match find_candidate(entries, true) {
        Some(i) => Some(i),
        None => find_candidate(entries, false),
    };
    if let Some(i) = pick {
        let mut entry = entries.remove(i);
        entry.kind = AudioInputKind::Microphone;
        entries.insert(i, entry);
        assert(entry_views(entries@) =~= e.update(
            i as int,
            (e[i as int].0, e[i as int].1, AudioInputKind::Microphone, e[i as int].3),
        ));
    }
}

fn pulse_default_option(monitor: bool) -> (o: AudioInputOption)
    ensures
        o@ == if monitor {
            default_monitor_option()
        } else {
            default_source_option()
        },
{
    if monitor {
        AudioInputOption {
            id: String::from_str("pulse::@DEFAULT_MONITOR@"),
            label: String::from_str("System • Default monitor (Pulse/PipeWire)"),
            kind: AudioInputKind::System,
        }
    } else {
        AudioInputOption {
            id: String::from_str("pulse::@DEFAULT_SOURCE@"),
            label: String::from_str("Mic • Default microphone (Pulse/PipeWire)"),
            kind: AudioInputKind::Microphone,
        }
    }
}

fn loopback_input(name: &String) -> (o: AudioInputOption)
    ensures
        o@ == loopback_option(name@),
{
    let mut label = String::from_str("System • ");
    label.append(name.as_str());
    label.append(" (WASAPI loopback)");
    AudioInputOption {
        id: String::from_str("cpal-loopback::@DEFAULT_OUTPUT@"),
        label,
        kind: AudioInputKind::System,
    }
}

fn collect_offered_inputs(
    pulse_available: bool,
    pulse_sources: Vec<AudioInputOption>,
    loopback_output: Option<String>,
    devices: Option<Vec<CpalInput>>,
    default_name: Option<String>,
    default_id: Option<String>,
) -> (options: Vec<AudioInputOption>)
    ensures
        option_views(options@) == offered_inputs(
            pulse_available,
            option_views(pulse_sources@),
            opt_view(loopback_output),
            devices_view(devices),
            opt_view(default_name),
            opt_view(default_id),
        ),
{
    let ghost offered = offered_inputs(
        pulse_available,
        option_views(pulse_sources@),
        opt_view(loopback_output),
        devices_view(devices),
        opt_view(default_name),
        opt_view(default_id),
    );
    let mut incoming: Vec<AudioInputOption> = Vec::new();
    let mut sources = pulse_sources;
    if pulse_available {
        incoming.push(pulse_default_option(false));
        incoming.append(&mut sources);
        incoming.push(pulse_default_option(true));
    }
    let ghost pulse_part = option_views(incoming@);
    match &loopback_output {
        Some(name) => incoming.push(loopback_input(name)),
        None => {},
    }
    let ghost loopback_part = option_views(incoming@).skip(pulse_part.len() as int);
    proof {
        assert(option_views(incoming@) =~= pulse_part + loopback_part);
    }
    match devices {
        Some(devs) => {
            let mut entries = device_entries_of(&devs, pulse_available, &default_name, &default_id);
            mark_fallback_microphone(&mut entries);
            let ghost marked = entry_views(entries@);
            let ghost start = incoming@;
            let mut k: usize = 0;
            while k < entries.len()
                invariant
                    k <= entries.len(),
                    marked == entry_views(entries@),
                    incoming@.len() == start.len() + k,
                    option_views(incoming@) == option_views(start) + marked.take(k as int).map_values(
                        |e: EntryView| entry_option(e),
                    ),
                decreases entries.len() - k,
            {
                let e = &entries[k];
                let label = format_input_label(e.name.as_str(), e.kind, e.is_default);
                let ghost before = incoming@;
                incoming.push(AudioInputOption { id: e.id.clone(), label, kind: e.kind });
                proof {
                    assert(marked[k as int] == (e.id@, e.name@, e.kind, e.is_default));
                    assert(marked.take(k + 1) =~= marked.take(k as int).push(marked[k as int]));
                    assert(option_views(incoming@) =~= option_views(before).push(
                        entry_option(marked[k as int]),
                    ));
                    assert(marked.take(k + 1).map_values(|e: EntryView| entry_option(e))
                        =~= marked.take(k as int).map_values(|e: EntryView| entry_option(e)).push(
                        entry_option(marked[k as int]),
                    ));
                }
                k += 1;
            }
            proof {
                assert(marked.take(entries.len() as int) =~= marked);
            }
        },
        None => {},
    }
    proof {
        if pulse_available {
            assert(pulse_part =~= seq![default_source_option()] + option_views(pulse_sources@)
                + seq![default_monitor_option()]);
        } else {
            assert(pulse_part =~= Seq::<InputOptionView>::empty());
        }
        match loopback_output {
            Some(name) => assert(loopback_part =~= seq![loopback_option(name@)]),
            None => assert(loopback_part =~= Seq::<InputOptionView>::empty()),
        }
        assert(option_views(incoming@) =~= offered);
    }
    incoming
}

/// The options with repeated route ids dropped, the first occurrence kept.
fn drop_repeated_inputs(incoming: Vec<AudioInputOption>) -> (options: Vec<AudioInputOption>)
    ensures
        option_views(options@) == push_all_unique(
            Seq::<InputOptionView>::empty(),
            option_views(incoming@),
        ),
{
    let mut incoming = incoming;
    let mut options: Vec<AudioInputOption> = Vec::new();
    let mut seen: Vec<String> = Vec::new();
    let ghost all = option_views(incoming@);
    let total = incoming.len();
    let mut j: usize = 0;
    proof {
        assert(all.len() == total);
        assert(all.take(0) =~= Seq::<InputOptionView>::empty());
        assert(option_views(options@) =~= Seq::<InputOptionView>::empty());
        assert(string_views(seen@) =~= option_ids(option_views(options@)));
        assert(option_views(incoming@) =~= all.skip(0));
    }
    while incoming.len() > 0
        invariant
            j <= all.len() <= usize::MAX,
            incoming@.len() == all.len() - j,
            option_views(incoming@) == all.skip(j as int),
            option_views(options@) == push_all_unique(
                Seq::<InputOptionView>::empty(),
                all.take(j as int),
            ),
            string_views(seen@) == option_ids(option_views(options@)),
        decreases incoming@.len(),
    {
        let ghost rest = incoming@;
        let ghost before = options@;
        let next = incoming.remove(0);
        proof {
            assert(option_views(rest)[0] == next@);
            assert(all.take(j + 1).drop_last() =~= all.take(j as int));
            assert(all.take(j + 1).last() == all.skip(j as int)[0]);
            assert forall|m: int| 0 <= m < incoming@.len() implies #[trigger] option_views(
                incoming@,
            )[m] == all.skip(j + 1)[m] by {
                assert(incoming@[m] == rest[m + 1]);
                assert(option_views(rest)[m + 1] == all.skip(j as int)[m + 1]);
            }
            assert(option_views(incoming@) =~= all.skip(j + 1));
        }
        push_unique_input(&mut options, &mut seen, next);
        proof {
            let ids = option_ids(option_views(before));
            if !ids.contains(next@.id) {
                assert(option_views(options@) =~= option_views(before).push(next@));
                assert(option_ids(option_views(options@)) =~= ids.push(next@.id));
            }
        }
        j += 1;
    }
    proof {
        assert(all.take(all.len() as int) =~= all);
    }
    options
}

/// Builds the input picker's list from what the audio system reported: whether Pulse is
/// available and the sources it lists, the name of the default output device where the
/// system can capture what it plays (WASAPI loopback), the cpal devices (`None` when they
/// could not be enumerated), and the default input's name and route id.
pub fn assemble_input_options(
    pulse_available: bool,
    pulse_sources: Vec<AudioInputOption>,
    loopback_output: Option<String>,
    devices: Option<Vec<CpalInput>>,
    default_name: Option<String>,
    default_id: Option<String>,
) -> (options: Vec<AudioInputOption>)
    ensures
        option_views(options@) == input_options(
            pulse_available,
            option_views(pulse_sources@),
            opt_view(loopback_output),
            devices_view(devices),
            opt_view(default_name),
            opt_view(default_id),
        ),
{
    let offered = collect_offered_inputs(
        pulse_available,
        pulse_sources,
        loopback_output,
        devices,
        default_name,
        default_id,
    );
    let mut options = drop_repeated_inputs(offered);
    sort_input_options(&mut options);
    options
}


/// Every option is a Pulse route for a listed source, never one of the default aliases.
pub open spec fn all_listed_pulse_routes(options: Seq<InputOptionView>) -> bool {
    forall|i: int|
        0 <= i < options.len() ==> {
            &&& starts_with(#[trigger] options[i].id, pulse_prefix())
            &&& !is_default_alias(options[i].id.skip(pulse_prefix().len() as int))
        }
}

proof fn lemma_with_pulse_source_routes(
    options: Seq<InputOptionView>,
    name: Option<Seq<char>>,
    description: Option<Seq<char>>,
)
    requires
        all_listed_pulse_routes(options),
    ensures
        all_listed_pulse_routes(with_pulse_source(options, name, description)),
{
    if let Some(o) = pulse_source_option(name, description) {
        let n = name.unwrap();
        assert((pulse_prefix() + n).take(pulse_prefix().len() as int) =~= pulse_prefix());
        assert((pulse_prefix() + n).skip(pulse_prefix().len() as int) =~= n);
        let r = options.push(o);
        assert forall|i: int| 0 <= i < r.len() implies {
            &&& starts_with(#[trigger] r[i].id, pulse_prefix())
            &&& !is_default_alias(r[i].id.skip(pulse_prefix().len() as int))
        } by {
            if i < options.len() {
                assert(r[i] == options[i]);
            }
        }
    }
}

proof fn lemma_parse_lines_routes(ls: Seq<Seq<char>>)
    ensures
        all_listed_pulse_routes(parse_lines(ls).0),
    decreases ls.len(),
{
    if ls.len() > 0 {
        lemma_parse_lines_routes(ls.drop_last());
        let st = parse_lines(ls.drop_last());
        lemma_with_pulse_source_routes(st.0, st.1, st.2);
    }
}

/// Every source read out of `pactl` output is offered under a `pulse::` route id, and
/// none of them is one of Pulse's default aliases, whatever the text holds.
pub proof fn lemma_pulse_sources_are_listed_routes(text: Seq<char>)
    ensures
        all_listed_pulse_routes(pulse_source_options(text)),
{
    let st = parse_lines(lines(text));
    lemma_parse_lines_routes(lines(text));
    lemma_with_pulse_source_routes(st.0, st.1, st.2);
}

/// No two options share a route id.
pub open spec fn ids_distinct(options: Seq<InputOptionView>) -> bool {
    forall|i: int, j: int|
        0 <= i < j < options.len() ==> #[trigger] options[i].id != #[trigger] options[j].id
}

proof fn lemma_push_all_unique(options: Seq<InputOptionView>, incoming: Seq<InputOptionView>)
    requires
        ids_distinct(options),
    ensures
        ids_distinct(push_all_unique(options, incoming)),
        forall|i: int|
            0 <= i < incoming.len() ==> option_ids(push_all_unique(options, incoming)).contains(
                (#[trigger] incoming[i]).id,
            ),
        forall|i: int|
            0 <= i < options.len() ==> option_ids(push_all_unique(options, incoming)).contains(
                (#[trigger] options[i]).id,
            ),
    decreases incoming.len(),
{
    if incoming.len() > 0 {
        let before = push_all_unique(options, incoming.drop_last());
        lemma_push_all_unique(options, incoming.drop_last());
        let x = incoming.last();
        let after = push_unique(before, x);
        if !option_ids(before).contains(x.id) {
            assert forall|i: int, j: int| 0 <= i < j < after.len() implies #[trigger] after[i].id
                != #[trigger] after[j].id by {
                if j == before.len() {
                    assert(option_ids(before)[i] == before[i].id);
                }
            }
            assert(option_ids(after)[before.len() as int] == x.id);
        }
        assert forall|i: int| 0 <= i < incoming.len() implies option_ids(after).contains(
            (#[trigger] incoming[i]).id,
        ) by {
            if i < incoming.len() - 1 {
                assert(incoming.drop_last()[i] == incoming[i]);
                let k = choose|k: int| 0 <= k < option_ids(before).len() && option_ids(before)[k]
                    == incoming[i].id;
                assert(option_ids(after)[k] == incoming[i].id);
            } else if option_ids(before).contains(x.id) {
            } else {
                assert(option_ids(after)[before.len() as int] == x.id);
            }
        }
        assert forall|i: int| 0 <= i < options.len() implies option_ids(after).contains(
            (#[trigger] options[i]).id,
        ) by {
            let k = choose|k: int| 0 <= k < option_ids(before).len() && option_ids(before)[k]
                == options[i].id;
            assert(option_ids(after)[k] == options[i].id);
        }
    } else {
        assert forall|i: int| 0 <= i < options.len() implies option_ids(options).contains(
            (#[trigger] options[i]).id,
        ) by {
            assert(option_ids(options)[i] == options[i].id);
        }
    }
}

proof fn lemma_sort_keeps_ids_distinct(s: Seq<InputOptionView>)
    requires
        ids_distinct(s),
    ensures
        ids_distinct(sorted_options(s)),
    decreases s.len(),
{
    if s.len() > 0 {
        let rest = s.drop_last();
        let x = s.last();
        assert forall|i: int, j: int| 0 <= i < j < rest.len() implies #[trigger] rest[i].id
            != #[trigger] rest[j].id by {
            assert(rest[i] == s[i] && rest[j] == s[j]);
        }
        lemma_sort_keeps_ids_distinct(rest);
        lemma_option_order();
        lemma_sort_by(rest, option_le());
        let t = sorted_options(rest);
        lemma_insert_pos(t, x, option_le());
        let p = insert_pos(t, x, option_le());
        t.insert_ensures(p, x);
        let r = t.insert(p, x);
        assert forall|k: int| 0 <= k < t.len() implies (#[trigger] t[k]).id != x.id by {
            t.to_multiset_ensures();
            rest.to_multiset_ensures();
            assert(t.contains(t[k]));
            assert(rest.to_multiset().count(t[k]) == t.to_multiset().count(t[k]));
            assert(rest.contains(t[k]));
            let m = choose|m: int| 0 <= m < rest.len() && rest[m] == t[k];
            assert(s[m] == rest[m]);
            assert(s[s.len() - 1] == x);
        }
        assert forall|i: int, j: int| 0 <= i < j < r.len() implies #[trigger] r[i].id
            != #[trigger] r[j].id by {
            if j < p {
                assert(r[i] == t[i] && r[j] == t[j]);
            } else if j == p {
                assert(r[i] == t[i]);
            } else if i == p {
                assert(r[j] == t[j - 1]);
            } else if i < p {
                assert(r[i] == t[i] && r[j] == t[j - 1]);
            } else {
                assert(r[i] == t[i - 1] && r[j] == t[j - 1]);
            }
        }
    }
}

/// The picker's list offers every route once: no two options share an id, every
/// offered route id is in it, it is sorted by [`option_key`], and it holds exactly the
/// first option offered under each id.
pub proof fn lemma_input_options(
    pulse_available: bool,
    pulse_sources: Seq<InputOptionView>,
    loopback_output: Option<Seq<char>>,
    devices: Option<Seq<(Seq<char>, Seq<char>)>>,
    default_name: Option<Seq<char>>,
    default_id: Option<Seq<char>>,
)
    ensures
        ({
            let offered = offered_inputs(
                pulse_available,
                pulse_sources,
                loopback_output,
                devices,
                default_name,
                default_id,
            );
            let kept = push_all_unique(Seq::<InputOptionView>::empty(), offered);
            let result = input_options(
                pulse_available,
                pulse_sources,
                loopback_output,
                devices,
                default_name,
                default_id,
            );
            &&& ids_distinct(result)
            &&& sorted_by(result, option_le())
            &&& result.to_multiset() == kept.to_multiset()
            &&& forall|i: int|
                0 <= i < offered.len() ==> option_ids(result).contains((#[trigger] offered[i]).id)
        }),
{
    let offered = offered_inputs(
        pulse_available,
        pulse_sources,
        loopback_output,
        devices,
        default_name,
        default_id,
    );
    let kept = push_all_unique(Seq::<InputOptionView>::empty(), offered);
    let result = sorted_options(kept);
    lemma_push_all_unique(Seq::<InputOptionView>::empty(), offered);
    lemma_sort_keeps_ids_distinct(kept);
    lemma_option_order();
    lemma_sort_by(kept, option_le());
    assert forall|i: int| 0 <= i < offered.len() implies option_ids(result).contains(
        (#[trigger] offered[i]).id,
    ) by {
        assert(option_ids(kept).contains(offered[i].id));
        let k = choose|k: int| 0 <= k < option_ids(kept).len() && option_ids(kept)[k]
            == offered[i].id;
        kept.to_multiset_ensures();
        result.to_multiset_ensures();
        assert(kept.contains(kept[k]));
        assert(result.to_multiset().count(kept[k]) == kept.to_multiset().count(kept[k]));
        assert(result.contains(kept[k]));
        let m = choose|m: int| 0 <= m < result.len() && result[m] == kept[k];
        assert(option_ids(result)[m] == offered[i].id);
    }
}

/// A device answers a request for `requested` when its route id or its name is that text.
pub open spec fn answers_request(device: (Seq<char>, Seq<char>), requested: Seq<char>) -> bool {
    device.0 == requested || device.1 == requested
}

/// The device a request for an input names, when the request is not a device id the
/// host resolves itself: the first device whose route id or name is the requested text;
/// `None` when none is.
pub fn find_requested_device(devices: &Vec<CpalInput>, requested: &str) -> (r: Option<usize>)
    ensures
        match r {
            Some(i) => {
                &&& i < devices@.len()
                &&& answers_request(cpal_input_views(devices@)[i as int], requested@)
                &&& forall|j: int|
                    0 <= j < i ==> !answers_request(
                        #[trigger] cpal_input_views(devices@)[j],
                        requested@,
                    )
            },
            None => forall|j: int|
                0 <= j < devices@.len() ==> !answers_request(
                    #[trigger] cpal_input_views(devices@)[j],
                    requested@,
                ),
        },
{
    let want = chars_of(requested);
    let mut i: usize = 0;
    while i < devices.len()
        invariant
            i <= devices@.len(),
            want@ == requested@,
            forall|j: int|
                0 <= j < i ==> !answers_request(
                    #[trigger] cpal_input_views(devices@)[j],
                    requested@,
                ),
        decreases devices@.len() - i,
    {
        let id = chars_of(devices[i].id.as_str());
        let name = chars_of(devices[i].name.as_str());
        assert(cpal_input_views(devices@)[i as int] == (devices@[i as int].id@, devices@[i as int].name@));
        if chars_eq(&id, &want) || chars_eq(&name, &want) {
            return Some(i);
        }
        i += 1;
    }
    None
}

/// How an input is classified, judged on its lowercase name against the markers: a name
/// holding any of "monitor", "loopback", "stereo mix", "what u hear", "blackhole" or
/// "soundflower" is system capture; otherwise one holding any of "alsa_input",
/// "microphone", " mic", "mono-fallback", "multichannel-input" or "capture", or the
/// name of the default input, is a microphone; anything else is other.
pub proof fn lemma_kind_follows_markers(name: Seq<char>, default_name: Option<Seq<char>>)
    ensures
        ({
            let lowered = lowercase_of(name);
            let system = seq![
                "monitor"@,
                "loopback"@,
                "stereo mix"@,
                "what u hear"@,
                "blackhole"@,
                "soundflower"@,
            ];
            let microphone = seq![
                "alsa_input"@,
                "microphone"@,
                " mic"@,
                "mono-fallback"@,
                "multichannel-input"@,
                "capture"@,
            ];
            let any_system = exists|i: int| 0 <= i < 6 && #[trigger] contains(lowered, system[i]);
            let any_microphone = exists|j: int|
                0 <= j < 6 && #[trigger] contains(lowered, microphone[j]);
            &&& any_system ==> input_kind_of(name, default_name) == AudioInputKind::System
            &&& !any_system && (any_microphone || default_name == Some(name)) ==> input_kind_of(
                name,
                default_name,
            ) == AudioInputKind::Microphone
            &&& !any_system && !any_microphone && default_name != Some(name) ==> input_kind_of(
                name,
                default_name,
            ) == AudioInputKind::Other
        }),
{
    let lowered = lowercase_of(name);
    let system = seq![
        "monitor"@,
        "loopback"@,
        "stereo mix"@,
        "what u hear"@,
        "blackhole"@,
        "soundflower"@,
    ];
    let microphone = seq![
        "alsa_input"@,
        "microphone"@,
        " mic"@,
        "mono-fallback"@,
        "multichannel-input"@,
        "capture"@,
    ];
    assert(system[0] == "monitor"@ && system[1] == "loopback"@ && system[2] == "stereo mix"@
        && system[3] == "what u hear"@ && system[4] == "blackhole"@ && system[5]
        == "soundflower"@);
    assert(microphone[0] == "alsa_input"@ && microphone[1] == "microphone"@ && microphone[2]
        == " mic"@ && microphone[3] == "mono-fallback"@ && microphone[4] == "multichannel-input"@
        && microphone[5] == "capture"@);
    assert(has_system_marker(lowered) <==> exists|i: int|
        0 <= i < 6 && #[trigger] contains(lowered, system[i])) by {
        if has_system_marker(lowered) {
            if contains(lowered, "monitor"@) {
                assert(contains(lowered, system[0]));
            } else if contains(lowered, "loopback"@) {
                assert(contains(lowered, system[1]));
            } else if contains(lowered, "stereo mix"@) {
                assert(contains(lowered, system[2]));
            } else if contains(lowered, "what u hear"@) {
                assert(contains(lowered, system[3]));
            } else if contains(lowered, "blackhole"@) {
                assert(contains(lowered, system[4]));
            } else {
                assert(contains(lowered, system[5]));
            }
        }
    }
    assert(has_microphone_marker(lowered) <==> exists|j: int|
        0 <= j < 6 && #[trigger] contains(lowered, microphone[j])) by {
        if has_microphone_marker(lowered) {
            if contains(lowered, "alsa_input"@) {
                assert(contains(lowered, microphone[0]));
            } else if contains(lowered, "microphone"@) {
                assert(contains(lowered, microphone[1]));
            } else if contains(lowered, " mic"@) {
                assert(contains(lowered, microphone[2]));
            } else if contains(lowered, "mono-fallback"@) {
                assert(contains(lowered, microphone[3]));
            } else if contains(lowered, "multichannel-input"@) {
                assert(contains(lowered, microphone[4]));
            } else {
                assert(contains(lowered, microphone[5]));
            }
        }
    }
}

proof fn lemma_first_candidate_in_range(entries: Seq<EntryView>, need_default: bool)
    ensures
        match first_candidate(entries, need_default) {
            Some(k) => 0 <= k < entries.len() && is_fallback_candidate(entries[k], need_default)
                && forall|j: int| 0 <= j < k ==> !is_fallback_candidate(#[trigger] entries[j], need_default),
            None => forall|j: int|
                0 <= j < entries.len() ==> !is_fallback_candidate(#[trigger] entries[j], need_default),
        },
    decreases entries.len(),
{
    if entries.len() > 0 {
        lemma_first_candidate_in_range(entries.drop_first(), need_default);
        if !is_fallback_candidate(entries[0], need_default) {
            assert forall|j: int| 1 <= j < entries.len() implies entries.drop_first()[j - 1]
                == entries[j] by {}
            match first_candidate(entries.drop_first(), need_default) {
                Some(k) => {
                    assert forall|j: int| 0 <= j < k + 1 implies !is_fallback_candidate(
                        #[trigger] entries[j],
                        need_default,
                    ) by {
                        if j > 0 {
                            assert(entries.drop_first()[j - 1] == entries[j]);
                        }
                    }
                },
                None => {
                    assert forall|j: int| 0 <= j < entries.len() implies !is_fallback_candidate(
                        #[trigger] entries[j],
                        need_default,
                    ) by {
                        if j > 0 {
                            assert(entries.drop_first()[j - 1] == entries[j]);
                        }
                    }
                },
            }
        }
    }
}

/// Where the devices' options start in the offered list: after Pulse's routes (its two
/// defaults and its sources) and the loopback, when there are any.
pub open spec fn device_options_start(
    pulse_available: bool,
    pulse_sources: Seq<InputOptionView>,
    loopback_output: Option<Seq<char>>,
) -> int {
    (if pulse_available {
        pulse_sources.len() + 2
    } else {
        0
    }) + (if loopback_output is Some {
        1int
    } else {
        0int
    })
}

/// The devices' part of the picker always offers a microphone when some device is not
/// system capture, whether or not Pulse is available: the devices come after the Pulse
/// routes and the loopback, one option per device in order with its route id, and when
/// no device is classified as a microphone one that is not system capture (the default
/// input if it is one) is marked as the microphone.
pub proof fn lemma_devices_offer_a_microphone(
    pulse_available: bool,
    pulse_sources: Seq<InputOptionView>,
    loopback_output: Option<Seq<char>>,
    devices: Seq<(Seq<char>, Seq<char>)>,
    default_name: Option<Seq<char>>,
    default_id: Option<Seq<char>>,
)
    ensures
        ({
            let entries = device_entries(devices, pulse_available, default_name, default_id);
            let offered = offered_inputs(
                pulse_available,
                pulse_sources,
                loopback_output,
                Some(devices),
                default_name,
                default_id,
            );
            let first = device_options_start(pulse_available, pulse_sources, loopback_output);
            &&& offered.len() == first + entries.len()
            &&& forall|i: int|
                0 <= i < entries.len() ==> (#[trigger] offered[first + i]).id == entries[i].0
            &&& forall|i: int|
                0 <= i < entries.len() && entries[i].2 != AudioInputKind::Other
                    ==> (#[trigger] offered[first + i]).kind == entries[i].2
            &&& (exists|j: int|
                0 <= j < entries.len() && (#[trigger] entries[j]).2 != AudioInputKind::System)
                ==> exists|i: int|
                first <= i < offered.len() && (#[trigger] offered[i]).kind
                    == AudioInputKind::Microphone
            &&& (exists|j: int|
                0 <= j < entries.len() && (#[trigger] entries[j]).2 == AudioInputKind::Microphone)
                ==> forall|i: int|
                0 <= i < entries.len() ==> (#[trigger] offered[first + i]).kind == entries[i].2
            &&& (!(exists|j: int|
                0 <= j < entries.len() && (#[trigger] entries[j]).2 == AudioInputKind::Microphone)
                && (exists|j: int|
                0 <= j < entries.len() && (#[trigger] entries[j]).2 != AudioInputKind::System))
                ==> exists|k: int|
                {
                    &&& 0 <= k < entries.len()
                    &&& entries[k].2 != AudioInputKind::System
                    &&& (#[trigger] offered[first + k]).kind == AudioInputKind::Microphone
                    &&& forall|i: int|
                        0 <= i < entries.len() && i != k ==> (#[trigger] offered[first + i]).kind
                            == entries[i].2
                    &&& (exists|j: int|
                        0 <= j < entries.len() && (#[trigger] entries[j]).2
                            != AudioInputKind::System && entries[j].3) ==> (entries[k].3
                        && forall|i: int|
                        0 <= i < k ==> !((#[trigger] entries[i]).2 != AudioInputKind::System
                            && entries[i].3))
                    &&& !(exists|j: int|
                        0 <= j < entries.len() && (#[trigger] entries[j]).2
                            != AudioInputKind::System && entries[j].3) ==> forall|i: int|
                        0 <= i < k ==> (#[trigger] entries[i]).2 == AudioInputKind::System
                }
        }),
{
    let entries = device_entries(devices, pulse_available, default_name, default_id);
    let marked = with_fallback_microphone(entries);
    let offered = offered_inputs(
        pulse_available,
        pulse_sources,
        loopback_output,
        Some(devices),
        default_name,
        default_id,
    );
    let first = device_options_start(pulse_available, pulse_sources, loopback_output);
    lemma_first_candidate_in_range(entries, true);
    lemma_first_candidate_in_range(entries, false);
    assert(marked.len() == entries.len());
    assert(forall|i: int| 0 <= i < entries.len() ==> (#[trigger] marked[i]).0 == entries[i].0);
    assert(forall|i: int|
        0 <= i < entries.len() && entries[i].2 != AudioInputKind::Other ==> (#[trigger] marked[i]).2
            == entries[i].2);
    assert forall|i: int| 0 <= i < entries.len() implies #[trigger] offered[first + i]
        == entry_option(marked[i]) by {}
    if exists|j: int| 0 <= j < entries.len() && (#[trigger] entries[j]).2 != AudioInputKind::System {
        let j = choose|j: int| 0 <= j < entries.len() && (#[trigger] entries[j]).2
            != AudioInputKind::System;
        assert(is_fallback_candidate(entries[j], false));
        let k: int = if has_microphone(entries) {
            choose|i: int| 0 <= i < entries.len() && (#[trigger] entries[i]).2
                == AudioInputKind::Microphone
        } else {
            match first_candidate(entries, true) {
                Some(i) => i,
                None => first_candidate(entries, false)->0,
            }
        };
        assert(0 <= k < entries.len() && marked[k].2 == AudioInputKind::Microphone);
        assert(offered[first + k] == entry_option(marked[k]));
        assert(offered[first + k].kind == AudioInputKind::Microphone);
        if !has_microphone(entries) {
            assert forall|i: int| 0 <= i < entries.len() && i != k implies (#[trigger] offered[first
                + i]).kind == entries[i].2 by {
                assert(offered[first + i] == entry_option(marked[i]));
            }
            if exists|j: int|
                0 <= j < entries.len() && (#[trigger] entries[j]).2 != AudioInputKind::System
                    && entries[j].3 {
                let j = choose|j: int|
                    0 <= j < entries.len() && (#[trigger] entries[j]).2 != AudioInputKind::System
                        && entries[j].3;
                assert(is_fallback_candidate(entries[j], true));
                assert(first_candidate(entries, true) == Some(k));
                assert forall|i: int| 0 <= i < k implies !((#[trigger] entries[i]).2
                    != AudioInputKind::System && entries[i].3) by {
                    assert(!is_fallback_candidate(entries[i], true));
                }
            } else {
                assert(first_candidate(entries, true) is None) by {
                    match first_candidate(entries, true) {
                        Some(c) => {
                            assert(is_fallback_candidate(entries[c], true));
                        },
                        None => {},
                    }
                }
                assert forall|i: int| 0 <= i < k implies (#[trigger] entries[i]).2
                    == AudioInputKind::System by {
                    assert(!is_fallback_candidate(entries[i], false));
                }
            }
            assert(entries[k].2 != AudioInputKind::System);
        }
    }
    if has_microphone(entries) {
        assert forall|i: int| 0 <= i < entries.len() implies (#[trigger] offered[first + i]).kind
            == entries[i].2 by {
            assert(offered[first + i] == entry_option(marked[i]));
        }
    }
}

} // verus!
