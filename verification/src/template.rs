use vstd::prelude::*;
use vstd::std_specs::iter::IteratorSpec;
use vstd::string::StringExecFns;

verus! {

/// One entry of a substitution mapping: the placeholder's name and the text
/// that takes its place.
#[derive(Clone, Debug)]
pub struct Substitution {
    pub name: String,
    pub value: String,
}

impl View for Substitution {
    type V = (Seq<char>, Seq<char>);

    open spec fn view(&self) -> (Seq<char>, Seq<char>) {
        (self.name@, self.value@)
    }
}

impl Substitution {
    /// The entry that puts `value` in the place of the placeholder `name`.
    pub fn new(name: &str, value: &str) -> (out: Substitution)
        ensures
            out@ == (name@, value@),
    {
        Substitution { name: name.to_owned(), value: value.to_owned() }
    }
}

/// A mapping as pairs of name and value, in the order given.
pub open spec fn mapping_of(subs: Seq<Substitution>) -> Seq<(Seq<char>, Seq<char>)> {
    Seq::new(subs.len(), |i: int| subs[i]@)
}

/// The token that stands for `name` in a template: the name between two marks.
pub open spec fn sentinel(name: Seq<char>) -> Seq<char> {
    seq!['$'] + name + seq!['$']
}

/// `pat` stands at the very start of `text`.
pub open spec fn starts_with(text: Seq<char>, pat: Seq<char>) -> bool {
    pat.len() <= text.len() && text.subrange(0, pat.len() as int) == pat
}

/// The first entry at or after `from` whose sentinel opens `text`, or the
/// mapping's length where there is none.
pub open spec fn first_match(text: Seq<char>, subs: Seq<(Seq<char>, Seq<char>)>, from: int) -> int
    decreases subs.len() - from,
{
    if from < 0 || from >= subs.len() {
        subs.len() as int
    } else if starts_with(text, sentinel(subs[from].0)) {
        from
    } else {
        first_match(text, subs, from + 1)
    }
}

/// What rendering makes of `text`: read from the left, every sentinel of a
/// supplied name gives way to that name's value (the first entry of a name
/// counts), and every other character stays. Values are not read again.
pub open spec fn rendered(text: Seq<char>, subs: Seq<(Seq<char>, Seq<char>)>) -> Seq<char>
    decreases text.len(),
{
    if text.len() == 0 {
        text
    } else {
        let k = first_match(text, subs, 0);
        // A sentinel that opens the text is no longer than the text; the bound
        // is written out so that the text is seen to get shorter.
        if 0 <= k < subs.len() && subs[k].0.len() + 2 <= text.len() {
            subs[k].1 + rendered(text.skip(subs[k].0.len() + 2 as int), subs)
        } else {
            seq![text[0]] + rendered(text.skip(1), subs)
        }
    }
}

/// std's `String::push`: the character is added at the end.
pub assume_specification[ String::push ](s: &mut String, c: char)
    ensures
        final(s)@ == old(s)@.push(c),
;

/// The characters of a text, one by one.
pub fn chars_of(text: &str) -> (out: Vec<char>)
    ensures
        out@ == text@,
{
    let mut out: Vec<char> = Vec::new();
    let mut it = text.chars();
    loop
        invariant
            out@ + it.remaining() == text@,
            it.obeys_prophetic_iter_laws(),
            it.decrease() is Some,
        ensures
            out@ == text@,
        decreases it.decrease()->0,
    {
        match it.next() {
            Some(c) => {
                out.push(c);
            },
            None => {
                assert(out@ =~= out@ + it.remaining());
                break ;
            },
        }
    }
    out
}

/// Whether the sentinel of `name` stands in `text` at index `at`.
fn sentinel_at(text: &Vec<char>, at: usize, name: &Vec<char>) -> (found: bool)
    requires
        at <= text@.len(),
    ensures
        found == starts_with(text@.skip(at as int), sentinel(name@)),
{
    let n: usize = name.len();
    let total: usize = text.len();
    let left: usize = total - at;
    if left < 2 || n > left - 2 {
        return false;
    }
    let ghost rest = text@.skip(at as int);
    let ghost pat = sentinel(name@);
    assert(pat.len() == n + 2);
    assert(pat[0] == '$' && pat[n + 1] == '$');
    assert(forall|i: int| 0 <= i < n ==> pat[i + 1] == name@[i]);
    if text[at] != '$' || text[at + n + 1] != '$' {
        assert(rest.subrange(0, pat.len() as int)[0] == rest[0]);
        assert(rest.subrange(0, pat.len() as int)[n + 1] == rest[n + 1]);
        return false;
    }
    let mut j: usize = 0;
    while j < n
        invariant
            j <= n,
            n == name@.len(),
            at + n + 2 <= text@.len(),
            total == text@.len(),
            rest == text@.skip(at as int),
            pat.len() == n + 2,
            forall|i: int| 0 <= i < n ==> pat[i + 1] == name@[i],
            forall|i: int| 0 <= i < j ==> text@[at + 1 + i] == name@[i],
        decreases n - j,
    {
        if text[at + 1 + j] != name[j] {
            assert(rest.subrange(0, pat.len() as int)[j + 1] == rest[j + 1]);
            return false;
        }
        j += 1;
    }
    assert(rest.subrange(0, pat.len() as int) =~= pat);
    true
}

/// Where no entry from `from` up to `upto` matches, the search may start at
/// `upto`.
proof fn lemma_first_match_from(
    text: Seq<char>,
    subs: Seq<(Seq<char>, Seq<char>)>,
    from: int,
    upto: int,
)
    requires
        0 <= from <= upto <= subs.len(),
        forall|j: int| from <= j < upto ==> !starts_with(text, sentinel(#[trigger] subs[j].0)),
    ensures
        first_match(text, subs, from) == first_match(text, subs, upto),
    decreases upto - from,
{
    if from < upto {
        lemma_first_match_from(text, subs, from + 1, upto);
    }
}

/// Fills the placeholders of `template`: every sentinel of a name that the
/// mapping holds gives way to its value; all other text stays as it is.
pub fn render(template: &str, substitutions: &Vec<Substitution>) -> (out: String)
    ensures
        out@ == rendered(template@, mapping_of(substitutions@)),
{
    let text = chars_of(template);
    let ghost subs = mapping_of(substitutions@);
    let mut names: Vec<Vec<char>> = Vec::new();
    let mut i: usize = 0;
    while i < substitutions.len()
        invariant
            i <= substitutions@.len(),
            names@.len() == i,
            forall|j: int| 0 <= j < i ==> (#[trigger] names@[j])@ == substitutions@[j].name@,
        decreases substitutions@.len() - i,
    {
        names.push(chars_of(substitutions[i].name.as_str()));
        i += 1;
    }
    let mut out = String::new();
    let mut at: usize = 0;
    assert(text@.skip(0) =~= text@);
    assert(out@ + rendered(text@, subs) =~= rendered(text@, subs));
    while at < text.len()
        invariant
            at <= text@.len(),
            text@ == template@,
            subs == mapping_of(substitutions@),
            names@.len() == substitutions@.len(),
            forall|j: int|
                0 <= j < names@.len() ==> (#[trigger] names@[j])@ == substitutions@[j].name@,
            out@ + rendered(text@.skip(at as int), subs) == rendered(text@, subs),
        decreases text@.len() - at,
    {
        let ghost rest = text@.skip(at as int);
        let mut k: usize = 0;
        let mut found = false;
        while k < names.len() && !found
            invariant
                k <= names@.len(),
                at < text@.len(),
                rest == text@.skip(at as int),
                subs == mapping_of(substitutions@),
                names@.len() == substitutions@.len(),
                forall|j: int|
                    0 <= j < names@.len() ==> (#[trigger] names@[j])@ == substitutions@[j].name@,
                !found ==> forall|j: int|
                    0 <= j < k ==> !starts_with(rest, sentinel(#[trigger] subs[j].0)),
                found ==> k < names@.len() && first_match(rest, subs, 0) == k && starts_with(
                    rest,
                    sentinel(subs[k as int].0),
                ),
            decreases names@.len() - k + (if found { 0int } else { 1int }),
        {
            assert(subs[k as int].0 == names@[k as int]@);
            if sentinel_at(&text, at, &names[k]) {
                proof {
                    lemma_first_match_from(rest, subs, 0, k as int);
                }
                found = true;
            } else {
                k += 1;
            }
        }
        proof {
            if !found {
                lemma_first_match_from(rest, subs, 0, subs.len() as int);
            }
        }
        let ghost before = out@;
        if found {
            assert(subs[k as int] == (names@[k as int]@, substitutions@[k as int].value@));
            assert(sentinel(subs[k as int].0).len() == names@[k as int]@.len() + 2);
            let step: usize = names[k].len() + 2;
            out.append(substitutions[k].value.as_str());
            proof {
                assert(rest.skip(step as int) =~= text@.skip(at + step));
                assert(rendered(rest, subs) == subs[k as int].1 + rendered(
                    rest.skip(step as int),
                    subs,
                ));
                assert(out@ + rendered(text@.skip(at + step), subs) =~= before + rendered(
                    rest,
                    subs,
                ));
            }
            at += step;
        } else {
            out.push(text[at]);
            proof {
                assert(rest.skip(1) =~= text@.skip(at + 1));
                assert(rendered(rest, subs) == seq![rest[0]] + rendered(rest.skip(1), subs));
                assert(out@ + rendered(text@.skip(at + 1), subs) =~= before + rendered(
                    rest,
                    subs,
                ));
            }
            at += 1;
        }
    }
    out
}

/// No character of `text` is the mark.
pub open spec fn mark_free(text: Seq<char>) -> bool {
    forall|i: int| 0 <= i < text.len() ==> text[i] != '$'
}

/// The mapping holds an entry for `name`.
pub open spec fn supplied(subs: Seq<(Seq<char>, Seq<char>)>, name: Seq<char>) -> bool {
    exists|k: int| 0 <= k < subs.len() && (#[trigger] subs[k]).0 == name
}

/// The first entry at or after `from` that is named `name`, or the mapping's
/// length where there is none.
pub open spec fn first_named(subs: Seq<(Seq<char>, Seq<char>)>, name: Seq<char>, from: int) -> int
    decreases subs.len() - from,
{
    if from < 0 || from >= subs.len() {
        subs.len() as int
    } else if subs[from].0 == name {
        from
    } else {
        first_named(subs, name, from + 1)
    }
}

/// The value that the mapping gives to `name`.
pub open spec fn value_for(subs: Seq<(Seq<char>, Seq<char>)>, name: Seq<char>) -> Seq<char> {
    subs[first_named(subs, name, 0)].1
}

/// A template seen as what it is made of: stretches of plain text and
/// placeholders.
pub enum Piece {
    Text(Seq<char>),
    Placeholder(Seq<char>),
}

/// The template that the pieces spell.
pub open spec fn template_of(pieces: Seq<Piece>) -> Seq<char>
    decreases pieces.len(),
{
    if pieces.len() == 0 {
        Seq::empty()
    } else {
        let head = match pieces[0] {
            Piece::Text(t) => t,
            Piece::Placeholder(name) => sentinel(name),
        };
        head + template_of(pieces.drop_first())
    }
}

/// The pieces with every placeholder filled in.
pub open spec fn filled(pieces: Seq<Piece>, subs: Seq<(Seq<char>, Seq<char>)>) -> Seq<char>
    decreases pieces.len(),
{
    if pieces.len() == 0 {
        Seq::empty()
    } else {
        let head = match pieces[0] {
            Piece::Text(t) => t,
            Piece::Placeholder(name) => value_for(subs, name),
        };
        head + filled(pieces.drop_first(), subs)
    }
}

/// Every stretch of text is free of the mark, and every placeholder has an
/// entry in the mapping.
pub open spec fn pieces_fit(pieces: Seq<Piece>, subs: Seq<(Seq<char>, Seq<char>)>) -> bool {
    forall|i: int|
        0 <= i < pieces.len() ==> match #[trigger] pieces[i] {
            Piece::Text(t) => mark_free(t),
            Piece::Placeholder(name) => supplied(subs, name),
        }
}

/// No name of the mapping holds the mark.
pub open spec fn names_mark_free(subs: Seq<(Seq<char>, Seq<char>)>) -> bool {
    forall|k: int| 0 <= k < subs.len() ==> mark_free((#[trigger] subs[k]).0)
}

/// No value of the mapping holds the mark.
pub open spec fn values_mark_free(subs: Seq<(Seq<char>, Seq<char>)>) -> bool {
    forall|k: int| 0 <= k < subs.len() ==> mark_free((#[trigger] subs[k]).1)
}

/// A template in which no sentinel of the mapping stands anywhere is left as
/// it is: placeholders without an entry stay, and entries without a
/// placeholder change nothing.
pub proof fn lemma_render_untouched(text: Seq<char>, subs: Seq<(Seq<char>, Seq<char>)>)
    requires
        forall|i: int, k: int|
            0 <= i < text.len() && 0 <= k < subs.len() ==> !starts_with(
                #[trigger] text.skip(i),
                sentinel(#[trigger] subs[k].0),
            ),
    ensures
        rendered(text, subs) == text,
    decreases text.len(),
{
    if text.len() > 0 {
        assert(text.skip(0) =~= text);
        lemma_first_match_from(text, subs, 0, subs.len() as int);
        let rest = text.skip(1);
        assert forall|i: int, k: int| 0 <= i < rest.len() && 0 <= k < subs.len() implies !starts_with(
            #[trigger] rest.skip(i),
            sentinel(#[trigger] subs[k].0),
        ) by {
            assert(rest.skip(i) =~= text.skip(i + 1));
        }
        lemma_render_untouched(rest, subs);
        assert(seq![text[0]] + rest =~= text);
    }
}

/// Text without the mark passes through rendering unchanged, whatever
/// follows it.
pub proof fn lemma_render_plain_text(
    text: Seq<char>,
    rest: Seq<char>,
    subs: Seq<(Seq<char>, Seq<char>)>,
)
    requires
        mark_free(text),
    ensures
        rendered(text + rest, subs) == text + rendered(rest, subs),
    decreases text.len(),
{
    let whole = text + rest;
    if text.len() == 0 {
        assert(whole =~= rest);
        assert(text + rendered(rest, subs) =~= rendered(rest, subs));
    } else {
        assert forall|k: int| 0 <= k < subs.len() implies !starts_with(
            whole,
            sentinel(#[trigger] subs[k].0),
        ) by {
            let pat = sentinel(subs[k].0);
            if starts_with(whole, pat) {
                assert(whole.subrange(0, pat.len() as int)[0] == pat[0]);
            }
        }
        lemma_first_match_from(whole, subs, 0, subs.len() as int);
        assert(whole.skip(1) =~= text.skip(1) + rest);
        lemma_render_plain_text(text.skip(1), rest, subs);
        assert(seq![whole[0]] + (text.skip(1) + rendered(rest, subs)) =~= text + rendered(
            rest,
            subs,
        ));
    }
}

/// Of two names without the mark, only the name's own sentinel opens a text
/// that begins with that sentinel.
proof fn lemma_sentinel_prefix(name: Seq<char>, other: Seq<char>, rest: Seq<char>)
    requires
        mark_free(name),
        mark_free(other),
    ensures
        starts_with(sentinel(name) + rest, sentinel(other)) <==> other == name,
{
    let whole = sentinel(name) + rest;
    let pat = sentinel(other);
    let l = name.len() as int;
    let m = other.len() as int;
    if other == name {
        assert(whole.subrange(0, pat.len() as int) =~= pat);
    }
    if starts_with(whole, pat) {
        let head = whole.subrange(0, pat.len() as int);
        if m < l {
            assert(head[m + 1] == pat[m + 1]);
            assert(whole[m + 1] == name[m]);
            assert(false);
        }
        if m > l {
            assert(head[l + 1] == pat[l + 1]);
            assert(pat[l + 1] == other[l]);
            assert(whole[l + 1] == '$');
            assert(false);
        }
        assert forall|i: int| 0 <= i < l implies other[i] == name[i] by {
            assert(head[i + 1] == pat[i + 1]);
            assert(whole[i + 1] == name[i]);
        }
        assert(other =~= name);
    }
}

/// In a text that begins with the sentinel of `name`, the first entry that
/// matches is the first entry of that name.
proof fn lemma_first_match_named(
    name: Seq<char>,
    rest: Seq<char>,
    subs: Seq<(Seq<char>, Seq<char>)>,
    from: int,
)
    requires
        mark_free(name),
        names_mark_free(subs),
        0 <= from <= subs.len(),
    ensures
        first_match(sentinel(name) + rest, subs, from) == first_named(subs, name, from),
        from <= first_named(subs, name, from) <= subs.len(),
        first_named(subs, name, from) < subs.len() ==> subs[first_named(subs, name, from)].0
            == name,
        forall|k: int|
            from <= k < subs.len() && (#[trigger] subs[k]).0 == name ==> first_named(
                subs,
                name,
                from,
            ) <= k,
    decreases subs.len() - from,
{
    if from < subs.len() {
        lemma_sentinel_prefix(name, subs[from].0, rest);
        lemma_first_match_named(name, rest, subs, from + 1);
    }
}

/// A placeholder with an entry in the mapping gives way to its value, and
/// rendering goes on behind it.
pub proof fn lemma_render_placeholder(
    name: Seq<char>,
    rest: Seq<char>,
    subs: Seq<(Seq<char>, Seq<char>)>,
)
    requires
        mark_free(name),
        names_mark_free(subs),
        supplied(subs, name),
    ensures
        rendered(sentinel(name) + rest, subs) == value_for(subs, name) + rendered(rest, subs),
{
    let whole = sentinel(name) + rest;
    lemma_first_match_named(name, rest, subs, 0);
    let k = first_named(subs, name, 0);
    assert(k < subs.len());
    assert(whole.skip(name.len() + 2 as int) =~= rest);
}

/// A template made of mark-free text and of placeholders that the mapping
/// knows renders to the same text with each placeholder, once for each time it
/// occurs, replaced by its value. Where the values are free of the mark too,
/// the result holds no mark, so no sentinel of any name is left in it.
pub proof fn lemma_render_fills_every_placeholder(
    pieces: Seq<Piece>,
    subs: Seq<(Seq<char>, Seq<char>)>,
)
    requires
        names_mark_free(subs),
        pieces_fit(pieces, subs),
        forall|i: int|
            0 <= i < pieces.len() ==> (#[trigger] pieces[i] matches Piece::Placeholder(name)
                ==> mark_free(name)),
    ensures
        rendered(template_of(pieces), subs) == filled(pieces, subs),
        values_mark_free(subs) ==> mark_free(rendered(template_of(pieces), subs)),
        values_mark_free(subs) ==> forall|i: int, name: Seq<char>|
            0 <= i <= rendered(template_of(pieces), subs).len() ==> !starts_with(
                #[trigger] rendered(template_of(pieces), subs).skip(i),
                #[trigger] sentinel(name),
            ),
    decreases pieces.len(),
{
    let out = rendered(template_of(pieces), subs);
    if pieces.len() == 0 {
        assert(out =~= filled(pieces, subs));
    } else {
        let tail = pieces.drop_first();
        assert forall|i: int| 0 <= i < tail.len() implies (match #[trigger] tail[i] {
            Piece::Text(t) => mark_free(t),
            Piece::Placeholder(name) => supplied(subs, name) && mark_free(name),
        }) by {
            assert(tail[i] == pieces[i + 1]);
        }
        lemma_render_fills_every_placeholder(tail, subs);
        let rest = template_of(tail);
        match pieces[0] {
            Piece::Text(t) => {
                lemma_render_plain_text(t, rest, subs);
            },
            Piece::Placeholder(name) => {
                lemma_render_placeholder(name, rest, subs);
                lemma_first_match_named(name, rest, subs, 0);
            },
        }
        assert(out == filled(pieces, subs));
    }
    if values_mark_free(subs) {
        assert(mark_free(out));
        assert forall|i: int, name: Seq<char>| 0 <= i <= out.len() implies !starts_with(
            #[trigger] out.skip(i),
            #[trigger] sentinel(name),
        ) by {
            let pat = sentinel(name);
            if starts_with(out.skip(i), pat) {
                assert(out.skip(i).subrange(0, pat.len() as int)[0] == pat[0]);
                assert(out.skip(i)[0] == out[i]);
            }
        }
    }
}

/// The sentinel of `name` stands nowhere in `text`.
pub open spec fn sentinel_free(text: Seq<char>, name: Seq<char>) -> bool {
    forall|i: int| 0 <= i <= text.len() ==> !starts_with(#[trigger] text.skip(i), sentinel(name))
}

/// A mapping of one entry.
pub open spec fn single(name: Seq<char>, value: Seq<char>) -> Seq<(Seq<char>, Seq<char>)> {
    seq![(name, value)]
}

/// Where the rendered text begins with a character that the value does not
/// begin with, the template begins with that character, and it was kept.
proof fn lemma_rendered_head(text: Seq<char>, name: Seq<char>, value: Seq<char>, c: char)
    requires
        value.len() > 0,
        value[0] != c,
        rendered(text, single(name, value)).len() > 0,
        rendered(text, single(name, value))[0] == c,
    ensures
        text.len() > 0,
        text[0] == c,
        rendered(text, single(name, value)) == seq![c] + rendered(
            text.skip(1),
            single(name, value),
        ),
{
    let subs = single(name, value);
    if text.len() > 0 {
        if starts_with(text, sentinel(name)) {
            assert(first_match(text, subs, 0) == 0);
            assert(rendered(text, subs)[0] == value[0]);
        } else {
            lemma_first_match_from(text, subs, 0, 1);
        }
    }
}

/// Where the rendered text begins with characters none of which the value
/// begins with, the template begins with the same characters.
proof fn lemma_rendered_prefix(text: Seq<char>, name: Seq<char>, value: Seq<char>, w: Seq<char>)
    requires
        value.len() > 0,
        forall|j: int| 0 <= j < w.len() ==> w[j] != value[0],
        starts_with(rendered(text, single(name, value)), w),
    ensures
        starts_with(text, w),
    decreases w.len(),
{
    let subs = single(name, value);
    let out = rendered(text, subs);
    if w.len() == 0 {
        assert(text.subrange(0, 0) =~= w);
    } else {
        assert(out.subrange(0, w.len() as int)[0] == w[0]);
        lemma_rendered_head(text, name, value, w[0]);
        let rest = rendered(text.skip(1), subs);
        let tail = w.skip(1);
        assert(rest.subrange(0, tail.len() as int) =~= tail) by {
            assert forall|j: int| 0 <= j < tail.len() implies rest[j] == tail[j] by {
                assert(out.subrange(0, w.len() as int)[j + 1] == w[j + 1]);
            }
        }
        assert forall|j: int| 0 <= j < tail.len() implies tail[j] != value[0] by {
            assert(tail[j] == w[j + 1]);
        }
        lemma_rendered_prefix(text.skip(1), name, value, tail);
        assert(text.subrange(0, w.len() as int) =~= w) by {
            assert forall|j: int| 0 <= j < w.len() implies text[j] == w[j] by {
                if j > 0 {
                    assert(text.skip(1).subrange(0, tail.len() as int)[j - 1] == tail[j - 1]);
                }
            }
        }
    }
}

/// Under a mapping of one entry, no sentinel of its name is left in what any
/// template renders to, given that the value is not empty, holds no mark and
/// does not begin with a character of the name.
pub proof fn lemma_single_placeholder_is_gone(
    text: Seq<char>,
    name: Seq<char>,
    value: Seq<char>,
)
    requires
        value.len() > 0,
        mark_free(value),
        forall|j: int| 0 <= j < name.len() ==> name[j] != value[0],
    ensures
        sentinel_free(rendered(text, single(name, value)), name),
    decreases text.len(),
{
    let subs = single(name, value);
    let out = rendered(text, subs);
    let pat = sentinel(name);
    assert(pat.len() == name.len() + 2);
    assert(pat[0] == '$');
    if text.len() > 0 {
        if starts_with(text, pat) {
            assert(first_match(text, subs, 0) == 0);
            let rest = text.skip(name.len() + 2 as int);
            lemma_single_placeholder_is_gone(rest, name, value);
            let later = rendered(rest, subs);
            assert(out == value + later);
            assert forall|i: int| 0 <= i <= out.len() implies !starts_with(
                #[trigger] out.skip(i),
                pat,
            ) by {
                if starts_with(out.skip(i), pat) {
                    assert(out.skip(i).subrange(0, pat.len() as int)[0] == pat[0]);
                    if i >= value.len() {
                        assert(out.skip(i) =~= later.skip(i - value.len()));
                    } else {
                        assert(out.skip(i)[0] == value[i]);
                    }
                }
            }
        } else {
            lemma_first_match_from(text, subs, 0, 1);
            let rest = text.skip(1);
            lemma_single_placeholder_is_gone(rest, name, value);
            let later = rendered(rest, subs);
            assert(out == seq![text[0]] + later);
            assert forall|i: int| 0 <= i <= out.len() implies !starts_with(
                #[trigger] out.skip(i),
                pat,
            ) by {
                if starts_with(out.skip(i), pat) {
                    if i >= 1 {
                        assert(out.skip(i) =~= later.skip(i - 1));
                    } else {
                        let head = out.subrange(0, pat.len() as int);
                        let w = pat.skip(1);
                        assert(out.skip(0) =~= out);
                        assert(head[0] == pat[0]);
                        assert(later.subrange(0, w.len() as int) =~= w) by {
                            assert forall|j: int| 0 <= j < w.len() implies later[j] == w[j] by {
                                assert(head[j + 1] == pat[j + 1]);
                            }
                        }
                        assert forall|j: int| 0 <= j < w.len() implies w[j] != value[0] by {
                            assert(w[j] == pat[j + 1]);
                            if j < name.len() {
                                assert(pat[j + 1] == name[j]);
                            } else {
                                assert(pat[j + 1] == '$');
                            }
                        }
                        lemma_rendered_prefix(rest, name, value, w);
                        assert(text.subrange(0, pat.len() as int) =~= pat) by {
                            assert forall|j: int| 0 <= j < pat.len() implies text[j] == pat[j] by {
                                if j > 0 {
                                    assert(rest.subrange(0, w.len() as int)[j - 1] == w[j - 1]);
                                }
                            }
                        }
                    }
                }
            }
        }
    } else {
        assert forall|i: int| 0 <= i <= out.len() implies !starts_with(
            #[trigger] out.skip(i),
            pat,
        ) by {}
    }
}

} // verus!
