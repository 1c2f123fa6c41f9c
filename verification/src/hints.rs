//! Command-line hints: every installed application becomes a hint, and the line
//! typed so far is completed with the rest of the first hint that extends it.
use vstd::prelude::*;
use vstd::string::*;
use vstd::utf8::*;

use crate::text::{starts_with, is_prefix_of, utf8_len, lemma_encode_utf8_concat, lemma_prefix_boundary};

verus! {

/// A hint shown after the cursor. `display` is the text shown; the first
/// `complete_up_to` bytes of it are what accepting the hint inserts.
pub struct CommandHint {
    display: String,
    complete_up_to: usize,
}

/// `a - b`, or 0 when `b` exceeds `a`.
pub open spec fn saturating_sub(a: nat, b: nat) -> nat {
    if a >= b {
        (a - b) as nat
    } else {
        0
    }
}

/// The boundary of the encoding of `b` at `k` is the boundary of the encoding of
/// `a + b` at `|a| + k`, counted in bytes.
proof fn lemma_boundary_shift(a: Seq<char>, b: Seq<char>, k: int)
    requires
        0 <= k,
    ensures
        is_char_boundary(encode_utf8(a + b), utf8_len(a) + k) == is_char_boundary(encode_utf8(b), k),
    decreases a.len(),
{
    broadcast use encode_utf8_valid_utf8;

    if a.len() == 0 {
        assert(a + b =~= b);
    } else {
        let s = a + b;
        let bytes = encode_utf8(s);
        encode_utf8_first_scalar(s);
        assert(pop_first_scalar(bytes) =~= encode_utf8(s.drop_first()));
        assert(s.drop_first() =~= a.drop_first() + b);
        assert(s[0] == a[0]);
        lemma_boundary_shift(a.drop_first(), b, k);
        lemma_encode_utf8_concat(a, b);
        lemma_encode_utf8_concat(a.drop_first(), b);
    }
}

impl CommandHint {
    #[verifier::type_invariant]
    spec fn well_formed(self) -> bool {
        is_char_boundary(encode_utf8(self.display@), self.complete_up_to as int)
    }

    /// The characters the hint displays.
    pub closed spec fn text(self) -> Seq<char> {
        self.display@
    }

    /// The number of bytes of the displayed text that accepting the hint inserts.
    pub closed spec fn completion_len(self) -> nat {
        self.complete_up_to as nat
    }

    /// The UTF-8 bytes of the displayed text.
    pub open spec fn bytes(self) -> Seq<u8> {
        encode_utf8(self.text())
    }

    /// A hint that shows `text` and completes the part of it that `complete_up_to`
    /// covers, which must be a prefix of `text`.
    pub fn new(text: &str, complete_up_to: &str) -> (hint: CommandHint)
        requires
            is_prefix_of(complete_up_to@, text@),
        ensures
            hint.text() == text@,
            hint.completion_len() == utf8_len(complete_up_to@),
    {
        proof {
            lemma_prefix_boundary(complete_up_to@, text@);
        }
        let complete_len = complete_up_to.as_bytes().len();
        CommandHint { display: text.to_owned(), complete_up_to: complete_len }
    }

    /// The same hint with its first `strip_chars` bytes removed, as shown once
    /// those bytes have been typed.
    pub fn suffix(&self, strip_chars: usize) -> (hint: CommandHint)
        requires
            is_char_boundary(self.bytes(), strip_chars as int),
        ensures
            hint.bytes() == self.bytes().subrange(strip_chars as int, self.bytes().len() as int),
            hint.completion_len() == saturating_sub(self.completion_len(), strip_chars as nat),
    {
        proof {
            use_type_invariant(self);
        }
        let whole = self.display.as_str();
        let (_, tail) = whole.split_at(strip_chars);
        let display = tail.to_owned();
        let complete_up_to = self.complete_up_to.saturating_sub(strip_chars);
        proof {
            broadcast use encode_utf8_valid_utf8;
            let bytes = encode_utf8(self.display@);
            let head_bytes = bytes.subrange(0, strip_chars as int);
            let tail_bytes = bytes.subrange(strip_chars as int, bytes.len() as int);
            valid_utf8_split(bytes, strip_chars as int);
            decode_utf8_split(bytes, strip_chars as int);
            decode_utf8_encode_utf8(head_bytes);
            encode_utf8_decode_utf8(self.display@);
            encode_utf8_decode_utf8(tail@);
            let head = decode_utf8(head_bytes);
            assert(encode_utf8(head) == head_bytes);
            assert(head + tail@ == self.display@);
            if self.complete_up_to >= strip_chars {
                lemma_boundary_shift(head, tail@, complete_up_to as int);
            }
        }
        CommandHint { display, complete_up_to }
    }

    /// The text that accepting the hint inserts, if any.
    pub fn completion(&self) -> (r: Option<&str>)
        ensures
            match r {
                Some(s) => self.completion_len() > 0 && encode_utf8(s@) == self.bytes().subrange(
                    0,
                    self.completion_len() as int,
                ),
                None => self.completion_len() == 0,
            },
    {
        proof {
            use_type_invariant(self);
        }
        if self.complete_up_to > 0 {
            let (head, _) = self.display.as_str().split_at(self.complete_up_to);
            Some(head)
        } else {
            None
        }
    }

    /// The text the hint shows.
    pub fn display(&self) -> (r: &str)
        ensures
            r@ == self.text(),
    {
        self.display.as_str()
    }

    /// The number of bytes accepting the hint inserts.
    pub fn complete_up_to(&self) -> (r: usize)
        ensures
            r == self.completion_len(),
    {
        self.complete_up_to
    }
}

/// The hint extends what has been typed: the typed line is a prefix of its text.
pub open spec fn hint_matches(hint: CommandHint, line: Seq<char>) -> bool {
    is_prefix_of(line, hint.text())
}

/// A hint made from a text and a prefix of it completes exactly that prefix: the
/// bytes it inserts are the encoding of the prefix.
pub proof fn lemma_hint_completes_prefix(text: Seq<char>, prefix: Seq<char>)
    requires
        is_prefix_of(prefix, text),
    ensures
        encode_utf8(text).subrange(0, utf8_len(prefix) as int) == encode_utf8(prefix),
{
    lemma_prefix_boundary(prefix, text);
    assert(encode_utf8(text).subrange(0, utf8_len(prefix) as int) =~= encode_utf8(prefix));
}

/// Stripping `a` bytes from a hint and then `b` more shows and completes the same
/// as stripping `a + b` bytes at once.
pub proof fn lemma_suffix_twice(bytes: Seq<u8>, complete: nat, a: nat, b: nat)
    requires
        a + b <= bytes.len(),
    ensures
        bytes.subrange(a as int, bytes.len() as int).subrange(b as int, bytes.len() - a) == bytes.subrange(
            (a + b) as int,
            bytes.len() as int,
        ),
        saturating_sub(saturating_sub(complete, a), b) == saturating_sub(complete, a + b),
{
    assert(bytes.subrange(a as int, bytes.len() as int).subrange(b as int, bytes.len() - a) =~= bytes.subrange(
        (a + b) as int,
        bytes.len() as int,
    ));
}

/// A hint that completes all of its text, stripped of some of its bytes as the
/// hinter does, still completes all of what it shows: accepting the hint of an
/// application name inserts the whole rest of the name.
pub proof fn lemma_suffix_completes_rest(h: CommandHint, s: CommandHint, pos: nat)
    requires
        h.completion_len() == h.bytes().len(),
        pos <= h.bytes().len(),
        s.bytes() == h.bytes().subrange(pos as int, h.bytes().len() as int),
        s.completion_len() == saturating_sub(h.completion_len(), pos),
    ensures
        s.completion_len() == s.bytes().len(),
{
}

/// Accepts a command line only when something was typed.
#[derive(Debug, Clone, Copy)]
pub struct InputValidator;

impl InputValidator {
    /// Whether the input is valid: it is not empty.
    pub fn validate(&self, input: &str) -> (valid: bool)
        ensures
            valid == (input@.len() > 0),
    {
        !input.is_empty()
    }
}

/// What tells hints apart: the text shown and how much of it is completed.
pub open spec fn hint_key(h: CommandHint) -> (Seq<char>, nat) {
    (h.text(), h.completion_len())
}

/// The keys of the hints, in order.
pub open spec fn keys_of(hints: Seq<CommandHint>) -> Seq<(Seq<char>, nat)> {
    hints.map_values(|h: CommandHint| hint_key(h))
}

/// Whether one of the hints has the key of `h`.
fn has_same_hint(hints: &Vec<CommandHint>, h: &CommandHint) -> (found: bool)
    ensures
        found == keys_of(hints@).contains(hint_key(*h)),
{
    let mut k: usize = 0;
    while k < hints.len()
        invariant
            k <= hints@.len(),
            forall|i: int| 0 <= i < k ==> #[trigger] hint_key(hints@[i]) != hint_key(*h),
        decreases hints@.len() - k,
    {
        if hints[k].display == h.display && hints[k].complete_up_to == h.complete_up_to {
            assert(keys_of(hints@)[k as int] == hint_key(*h));
            return true;
        }
        k = k + 1;
    }
    proof {
        if keys_of(hints@).contains(hint_key(*h)) {
            let i = choose|i: int| 0 <= i < keys_of(hints@).len() && keys_of(hints@)[i] == hint_key(*h);
            assert(hint_key(hints@[i]) == hint_key(*h));
        }
    }
    false
}

impl CommandHint {
    /// A copy of the hint.
    fn copy(&self) -> (r: CommandHint)
        ensures
            hint_key(r) == hint_key(*self),
    {
        proof {
            use_type_invariant(self);
        }
        CommandHint { display: self.display.clone(), complete_up_to: self.complete_up_to }
    }
}

/// Hints at the command line from a set of hints: no hint occurs twice.
pub struct DIYHinter {
    hints: Vec<CommandHint>,
}

impl DIYHinter {
    #[verifier::type_invariant]
    spec fn no_hint_twice(self) -> bool {
        forall|a: int, b: int|
            0 <= a < b < self.hints@.len() ==> #[trigger] hint_key(self.hints@[a]) != #[trigger] hint_key(
                self.hints@[b],
            )
    }

    /// The hints, in the order in which they are tried.
    pub closed spec fn hints(self) -> Seq<CommandHint> {
        self.hints@
    }

    /// A hinter over the given hints, each kept once: a hint equal to one before
    /// it is left out, and the others keep their order.
    pub fn new(hints: Vec<CommandHint>) -> (hinter: DIYHinter)
        ensures
            keys_of(hinter.hints()) == dedup(keys_of(hints@)),
    {
        let mut kept: Vec<CommandHint> = Vec::new();
        let mut j: usize = 0;
        let ghost keys = keys_of(hints@);
        proof {
            assert(keys.take(0) =~= seq![]);
            assert(keys_of(kept@) =~= seq![]);
        }
        while j < hints.len()
            invariant
                j <= hints@.len(),
                keys == keys_of(hints@),
                keys_of(kept@) == dedup(keys.take(j as int)),
            decreases hints@.len() - j,
        {
            let h = &hints[j];
            proof {
                assert(keys.take(j + 1).drop_last() =~= keys.take(j as int));
                assert(keys.take(j + 1).last() == hint_key(*h));
            }
            if !has_same_hint(&kept, h) {
                let c = h.copy();
                let ghost before = kept@;
                kept.push(c);
                proof {
                    assert(keys_of(kept@) =~= keys_of(before).push(hint_key(*h)));
                }
            }
            j = j + 1;
        }
        proof {
            assert(keys.take(hints@.len() as int) =~= keys);
            lemma_hints_distinct(keys);
            assert forall|a: int, b: int| 0 <= a < b < kept@.len() implies #[trigger] hint_key(kept@[a])
                != #[trigger] hint_key(kept@[b]) by {
                assert(keys_of(kept@)[a] == hint_key(kept@[a]));
                assert(keys_of(kept@)[b] == hint_key(kept@[b]));
            }
        }
        DIYHinter { hints: kept }
    }

    /// The hint for the typed `line` with the cursor at byte `pos`: nothing while the
    /// line is empty or the cursor is not at its end; otherwise the rest, after the
    /// cursor, of the first hint that extends the line, if there is one. The cursor
    /// must fall on a character boundary of that first hint.
    pub fn hint(&self, line: &str, pos: usize) -> (r: Option<CommandHint>)
        requires
            forall|i: int|
                0 <= i < self.hints().len() && line@.len() > 0 && pos >= utf8_len(line@)
                    && #[trigger] hint_matches(self.hints()[i], line@)
                    && (forall|j: int| 0 <= j < i ==> !hint_matches(self.hints()[j], line@))
                    ==> is_char_boundary(self.hints()[i].bytes(), pos as int),
        ensures
            line@.len() == 0 || pos < utf8_len(line@) ==> r is None,
            line@.len() > 0 && pos >= utf8_len(line@) ==> match r {
                None => forall|i: int|
                    0 <= i < self.hints().len() ==> !#[trigger] hint_matches(self.hints()[i], line@),
                Some(h) => exists|i: int|
                    {
                        &&& 0 <= i < self.hints().len()
                        &&& #[trigger] hint_matches(self.hints()[i], line@)
                        &&& forall|j: int| 0 <= j < i ==> !hint_matches(self.hints()[j], line@)
                        &&& h.bytes() == self.hints()[i].bytes().subrange(
                            pos as int,
                            self.hints()[i].bytes().len() as int,
                        )
                        &&& h.completion_len() == saturating_sub(
                            self.hints()[i].completion_len(),
                            pos as nat,
                        )
                        &&& pos == utf8_len(line@) ==> encode_utf8(line@) + h.bytes()
                            == self.hints()[i].bytes()
                    },
            },
    {
        if line.is_empty() || pos < line.as_bytes().len() {
            return None;
        }
        let mut i: usize = 0;
        while i < self.hints.len()
            invariant
                i <= self.hints().len(),
                self.hints() == self.hints@,
                line@.len() > 0,
                pos >= utf8_len(line@),
                forall|j: int| 0 <= j < i ==> !hint_matches(self.hints()[j], line@),
                forall|k: int|
                    0 <= k < self.hints().len() && #[trigger] hint_matches(self.hints()[k], line@)
                        && (forall|j: int| 0 <= j < k ==> !hint_matches(self.hints()[j], line@))
                        ==> is_char_boundary(self.hints()[k].bytes(), pos as int),
            decreases self.hints().len() - i,
        {
            let candidate = &self.hints[i];
            if starts_with(candidate.display(), line) {
                proof {
                    assert(hint_matches(self.hints()[i as int], line@));
                }
                let h = candidate.suffix(pos);
                proof {
                    if pos == utf8_len(line@) {
                        lemma_prefix_boundary(line@, candidate.text());
                        assert(encode_utf8(line@) + h.bytes() =~= candidate.bytes());
                    }
                }
                return Some(h);
            }
            i = i + 1;
        }
        None
    }
}

/// The sequence with every element after its first occurrence removed.
pub open spec fn dedup<A>(s: Seq<A>) -> Seq<A>
    decreases s.len(),
{
    if s.len() == 0 {
        seq![]
    } else {
        let r = dedup(s.drop_last());
        if r.contains(s.last()) {
            r
        } else {
            r.push(s.last())
        }
    }
}

/// The names, as character sequences.
pub open spec fn names_of(apps: Seq<String>) -> Seq<Seq<char>> {
    apps.map_values(|a: String| a@)
}

/// The texts the hints show, in order.
pub open spec fn texts_of(hints: Seq<CommandHint>) -> Seq<Seq<char>> {
    hints.map_values(|h: CommandHint| h.text())
}

/// Whether one of the hints shows exactly `text`.
fn has_hint_for(hints: &Vec<CommandHint>, text: &String) -> (found: bool)
    ensures
        found == texts_of(hints@).contains(text@),
{
    let mut k: usize = 0;
    while k < hints.len()
        invariant
            k <= hints@.len(),
            forall|i: int| 0 <= i < k ==> #[trigger] hints@[i].text() != text@,
        decreases hints@.len() - k,
    {
        if hints[k].display == *text {
            assert(texts_of(hints@)[k as int] == text@);
            return true;
        }
        k = k + 1;
    }
    proof {
        if texts_of(hints@).contains(text@) {
            let i = choose|i: int| 0 <= i < texts_of(hints@).len() && texts_of(hints@)[i] == text@;
            assert(hints@[i].text() == text@);
        }
    }
    false
}

/// The hints for the given application names: one per distinct name, in the order
/// of first occurrence, each showing the name and completing all of it.
pub fn get_app_hints(applications: &Vec<String>) -> (hints: Vec<CommandHint>)
    ensures
        texts_of(hints@) == dedup(names_of(applications@)),
        forall|i: int|
            0 <= i < hints@.len() ==> #[trigger] hints@[i].completion_len() == utf8_len(
                hints@[i].text(),
            ),
{
    let mut hints: Vec<CommandHint> = Vec::new();
    let mut j: usize = 0;
    let ghost names = names_of(applications@);
    proof {
        assert(names.take(0) =~= seq![]);
        assert(texts_of(hints@) =~= seq![]);
    }
    while j < applications.len()
        invariant
            j <= applications@.len(),
            names == names_of(applications@),
            texts_of(hints@) == dedup(names.take(j as int)),
            forall|i: int|
                0 <= i < hints@.len() ==> #[trigger] hints@[i].completion_len() == utf8_len(
                    hints@[i].text(),
                ),
        decreases applications@.len() - j,
    {
        let app = &applications[j];
        proof {
            assert(names.take(j + 1).drop_last() =~= names.take(j as int));
            assert(names.take(j + 1).last() == app@);
        }
        if !has_hint_for(&hints, app) {
            proof {
                assert(app@.subrange(0, app@.len() as int) =~= app@);
            }
            let h = CommandHint::new(app.as_str(), app.as_str());
            let ghost old_hints = hints@;
            hints.push(h);
            proof {
                assert(texts_of(hints@) =~= texts_of(old_hints).push(app@));
                assert forall|i: int|
                    0 <= i < hints@.len() implies #[trigger] hints@[i].completion_len() == utf8_len(
                    hints@[i].text(),
                ) by {
                    if i < old_hints.len() {
                        assert(hints@[i] == old_hints[i]);
                    }
                }
            }
        }
        j = j + 1;
    }
    proof {
        assert(names.take(applications@.len() as int) =~= names);
    }
    hints
}

/// Every name has a hint: a name occurs among the names exactly when it occurs
/// among the hinted texts.
pub proof fn lemma_every_app_hinted<A>(names: Seq<A>, name: A)
    ensures
        dedup(names).contains(name) == names.contains(name),
    decreases names.len(),
{
    if names.len() > 0 {
        let rest = names.drop_last();
        lemma_every_app_hinted(rest, name);
        assert(names =~= rest.push(names.last()));
        if names.contains(name) && !rest.contains(name) {
            let i = choose|i: int| 0 <= i < names.len() && names[i] == name;
            if i < rest.len() {
                assert(rest[i] == name);
            }
        }
        if rest.contains(name) {
            let i = choose|i: int| 0 <= i < rest.len() && rest[i] == name;
            assert(names[i] == name);
        }
        let r = dedup(rest);
        if !r.contains(names.last()) {
            if r.push(names.last()).contains(name) {
                let i = choose|i: int| 0 <= i < r.push(names.last()).len() && r.push(names.last())[i] == name;
                if i < r.len() {
                    assert(r[i] == name);
                }
            }
            if r.contains(name) {
                let i = choose|i: int| 0 <= i < r.len() && r[i] == name;
                assert(r.push(names.last())[i] == name);
            }
            assert(r.push(names.last())[r.len() as int] == names.last());
        }
        assert(names[names.len() - 1] == names.last());
    }
}

/// No name is hinted twice: the hinted texts are pairwise distinct.
pub proof fn lemma_hints_distinct<A>(names: Seq<A>)
    ensures
        forall|i: int, k: int|
            0 <= i < k < dedup(names).len() ==> dedup(names)[i] != dedup(names)[k],
    decreases names.len(),
{
    if names.len() > 0 {
        let rest = names.drop_last();
        lemma_hints_distinct(rest);
        let r = dedup(rest);
        if !r.contains(names.last()) {
            let d = r.push(names.last());
            assert forall|i: int, k: int| 0 <= i < k < d.len() implies d[i] != d[k] by {
                if k == r.len() {
                    assert(d[i] == r[i]);
                    assert(d[k] == names.last());
                } else {
                    assert(d[i] == r[i]);
                    assert(d[k] == r[k]);
                }
            }
        }
    }
}

} // verus!
