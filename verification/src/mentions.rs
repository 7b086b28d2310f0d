//! The mention codec: a process-lifetime table pairing opaque reference
//! tokens (`<@12345>`) with display names (`@Ada`), unique on both sides
//! — case-insensitively on the name side. `decode` rewrites tokens to
//! names for the completion service's benefit; `encode` rewrites names
//! back to tokens, longest match first, so outbound text re-addresses
//! the right participants.

use vstd::prelude::*;

use crate::digits::{
    all_digits, digit_run, digits_of, is_digit, lemma_digit_run_digits, lemma_digit_run_exact,
    lemma_num_of_canonical, num_of, parse_u64, scan_digit_run, u64_to_digits,
};
use crate::text::{chars_to_string, extend_chars, string_to_chars, subrange_chars};

verus! {

/// What a string folds to for case-less comparison. The folding itself
/// is the case-folding algorithm of the `unicase` crate, far too large
/// to restate; only its use as an equality is relied on.
pub uninterp spec fn fold_of(s: Seq<char>) -> Seq<char>;

/// Relies on unicase::eq: case-less equality of two strings, true
/// exactly when their full Unicode case foldings coincide; the folding
/// is a pure function of the characters alone.
#[verifier::external_body]
fn eq_fold(a: &str, b: &str) -> (r: bool)
    ensures
        r == (fold_of(a@) == fold_of(b@)),
{
    unicase::eq(a, b)
}

/// One cached pairing of a reference token and a display name. The
/// display name is held as shown in text, with its leading `@`.
struct MentionEntry {
    token: u64,
    display: String,
}

/// The mathematical shape of one table entry.
pub struct EntryView {
    pub token: u64,
    pub display: Seq<char>,
}

impl View for MentionEntry {
    type V = EntryView;

    closed spec fn view(&self) -> EntryView {
        EntryView { token: self.token, display: self.display@ }
    }
}

/// The mention table, owned by the orchestrator's single shared
/// instance; the host guards it with one exclusive-access scope per
/// read-modify-write sequence.
pub struct MentionTable {
    entries: Vec<MentionEntry>,
}

impl View for MentionTable {
    type V = Seq<EntryView>;

    closed spec fn view(&self) -> Seq<EntryView> {
        self.entries@.map_values(|e: MentionEntry| e@)
    }
}

/// Table sanity: tokens unique, display names case-insensitively unique,
/// every display name nonempty and led by `@`.
pub open spec fn table_wf(t: Seq<EntryView>) -> bool {
    &&& forall|i: int, j: int|
        0 <= i < j < t.len() ==> (#[trigger] t[i].token) != (#[trigger] t[j].token)
    &&& forall|i: int, j: int|
        0 <= i < j < t.len() ==> fold_of((#[trigger] t[i].display)) != fold_of(
            (#[trigger] t[j].display),
        )
    &&& forall|i: int|
        0 <= i < t.len() ==> (#[trigger] t[i].display).len() >= 1 && t[i].display[0] == '@'
}

/// Whether a token id is cached.
pub open spec fn has_token(t: Seq<EntryView>, id: u64) -> bool {
    exists|i: int| 0 <= i < t.len() && t[i].token == id
}

/// The entry index of a cached token id.
pub open spec fn index_of_token(t: Seq<EntryView>, id: u64) -> int {
    choose|i: int| 0 <= i < t.len() && t[i].token == id
}

/// The display name cached for a token id.
pub open spec fn display_of(t: Seq<EntryView>, id: u64) -> Seq<char> {
    t[index_of_token(t, id)].display
}

/// The text of a reference token.
pub open spec fn token_text(id: u64) -> Seq<char> {
    seq!['<', '@'] + digits_of(id as nat) + seq!['>']
}

/// Whether a well-formed reference token starts at the front of `s`:
/// `<@`, at least one digit, `>`, with a value that fits the id space.
pub open spec fn token_at(s: Seq<char>) -> bool {
    let k = digit_run(s, 2);
    &&& s.len() >= 4
    &&& s[0] == '<'
    &&& s[1] == '@'
    &&& k >= 1
    &&& 2 + k < s.len()
    &&& s[2 + k] == '>'
    &&& num_of(s.subrange(2, 2 + k)) <= u64::MAX
}

/// The character length of the token at the front of `s`.
pub open spec fn token_len(s: Seq<char>) -> int {
    3 + digit_run(s, 2)
}

/// The id of the token at the front of `s`.
pub open spec fn token_id(s: Seq<char>) -> u64 {
    num_of(s.subrange(2, 2 + digit_run(s, 2))) as u64
}

/// The decoded form of `s`: every token whose id is cached becomes the
/// cached display name; all other text, unresolved tokens included, is
/// left as it stands.
pub open spec fn decode_spec(s: Seq<char>, t: Seq<EntryView>) -> Seq<char>
    decreases s.len(),
{
    if s.len() == 0 {
        Seq::empty()
    } else if token_at(s) && has_token(t, token_id(s)) {
        display_of(t, token_id(s)) + decode_spec(s.skip(token_len(s)), t)
    } else {
        seq![s[0]] + decode_spec(s.skip(1), t)
    }
}

/// The distinct token ids appearing in `s`.
pub open spec fn token_ids(s: Seq<char>) -> Set<u64>
    decreases s.len(),
{
    if s.len() == 0 {
        Set::empty()
    } else if token_at(s) {
        token_ids(s.skip(token_len(s))).insert(token_id(s))
    } else {
        token_ids(s.skip(1))
    }
}

impl MentionTable {
    /// An empty table.
    pub fn new() -> (t: MentionTable)
        ensures
            t.wf(),
            t@ =~= Seq::<EntryView>::empty(),
    {
        let t = MentionTable { entries: Vec::new() };
        proof {
            assert(t@ =~= Seq::<EntryView>::empty());
        }
        t
    }

    /// Table well-formedness; established by `new` and preserved by
    /// every method.
    pub open spec fn wf(&self) -> bool {
        table_wf(self@)
    }

    /// The display name cached for a token id, with its leading `@`.
    pub fn lookup(&self, id: u64) -> (r: Option<String>)
        requires
            self.wf(),
        ensures
            match r {
                Some(s) => has_token(self@, id) && s@ == display_of(self@, id),
                None => !has_token(self@, id),
            },
    {
        let n = self.entries.len();
        let mut i: usize = 0;
        while i < n
            invariant
                self.wf(),
                n == self.entries@.len(),
                0 <= i <= n,
                forall|j: int| 0 <= j < i ==> (#[trigger] self@[j].token) != id,
            decreases n - i,
        {
            if self.entries[i].token == id {
                proof {
                    assert(self@[i as int].token == id);
                    assert(has_token(self@, id));
                    let k = index_of_token(self@, id);
                    assert(0 <= k < self@.len() && self@[k].token == id);
                    if k < i {
                        assert(self@[k].token != self@[i as int].token);
                    } else if k > i {
                        assert(self@[i as int].token != self@[k].token);
                    }
                    assert(k == i);
                }
                return Some(self.entries[i].display.clone());
            }
            i = i + 1;
        }
        proof {
            assert(!has_token(self@, id));
        }
        None
    }

    /// Caches a pairing of a token id and a resolved display name (given
    /// without its `@`). The pair is dropped — and `false` returned —
    /// when the id is already cached (a concurrent decode resolved it
    /// first: that entry is reused, never overwritten) or when the name
    /// collides case-insensitively with a name cached for another id.
    pub fn insert(&mut self, id: u64, name: &str) -> (r: bool)
        requires
            old(self).wf(),
        ensures
            final(self).wf(),
            r ==> final(self)@ == old(self)@.push(
                EntryView { token: id, display: seq!['@'] + name@ },
            ) && !has_token(old(self)@, id),
            !r ==> final(self)@ == old(self)@,
            !r ==> has_token(old(self)@, id) || exists|j: int|
                0 <= j < old(self)@.len() && fold_of(#[trigger] old(self)@[j].display) == fold_of(
                    seq!['@'] + name@,
                ),
            has_token(final(self)@, id) || !has_token(old(self)@, id),
    {
        let mut dv: Vec<char> = Vec::new();
        dv.push('@');
        let nv = string_to_chars(name);
        extend_chars(&mut dv, &nv, 0, nv.len());
        let display = chars_to_string(&dv);
        proof {
            assert(nv@.subrange(0, nv@.len() as int) =~= nv@);
            assert(display@ =~= seq!['@'] + name@);
        }
        let n = self.entries.len();
        let mut i: usize = 0;
        while i < n
            invariant
                self == old(self),
                self.wf(),
                display@ == seq!['@'] + name@,
                n == self.entries@.len(),
                0 <= i <= n,
                forall|j: int| 0 <= j < i ==> (#[trigger] self@[j].token) != id,
                forall|j: int|
                    0 <= j < i ==> fold_of((#[trigger] self@[j].display)) != fold_of(display@),
            decreases n - i,
        {
            if self.entries[i].token == id {
                proof {
                    assert(self@[i as int].token == id);
                    assert(has_token(self@, id));
                }
                return false;
            }
            if eq_fold(self.entries[i].display.as_str(), display.as_str()) {
                proof {
                    assert(fold_of(self@[i as int].display) == fold_of(seq!['@'] + name@));
                }
                return false;
            }
            i = i + 1;
        }
        let ghost pre = self@;
        self.entries.push(MentionEntry { token: id, display });
        proof {
            assert(self@ =~= pre.push(EntryView { token: id, display: seq!['@'] + name@ }));
            assert(!has_token(pre, id));
            assert(self@[pre.len() as int].token == id);
            assert(has_token(self@, id));
            assert(self@[pre.len() as int].display[0] == '@');
        }
        true
    }
}

/// Rewrites every cached reference token in `text` to `@` plus the
/// cached display name; unresolved tokens stay as they stand.
pub fn decode(text: &str, table: &MentionTable) -> (r: String)
    requires
        table.wf(),
    ensures
        r@ == decode_spec(text@, table@),
{
    let v = string_to_chars(text);
    let mut out: Vec<char> = Vec::new();
    let mut pos: usize = 0;
    let n = v.len();
    proof {
        assert(v@.skip(0) =~= v@);
    }
    while pos < n
        invariant
            table.wf(),
            n == v@.len(),
            0 <= pos <= n,
            decode_spec(v@, table@) == out@ + decode_spec(v@.skip(pos as int), table@),
        decreases n - pos,
    {
        let ghost suffix = v@.skip(pos as int);
        let ghost out_pre = out@;
        let mut step: usize = 1;
        let mut replaced = false;
        if v[pos] == '<' && pos + 1 < n && v[pos + 1] == '@' {
            let k = scan_digit_run(&v, pos + 2);
            proof {
                assert forall|j: int| 2 <= j < 2 + k implies is_digit(#[trigger] suffix[j]) by {
                    assert(suffix[j] == v@[pos + j]);
                    assert(is_digit(v@[pos + j]));
                }
                if pos + 2 + k < n {
                    assert(suffix[2 + k] == v@[pos + 2 + k]);
                }
                lemma_digit_run_exact(suffix, 2, k as int);
            }
            if k >= 1 && pos + 2 + k < n && v[pos + 2 + k] == '>' {
                let parsed = parse_u64(&v, pos + 2, pos + 2 + k);
                proof {
                    assert(v@.subrange(pos + 2 as int, pos + 2 + k as int) =~= suffix.subrange(
                        2,
                        2 + k as int,
                    ));
                }
                match parsed {
                    Some(id) => {
                        proof {
                            assert(token_at(suffix));
                            assert(token_id(suffix) == id);
                            assert(token_len(suffix) == 3 + k);
                        }
                        match table.lookup(id) {
                            Some(display) => {
                                let dv = string_to_chars(display.as_str());
                                extend_chars(&mut out, &dv, 0, dv.len());
                                step = 3 + k;
                                replaced = true;
                                proof {
                                    assert(dv@.subrange(0, dv@.len() as int) =~= dv@);
                                    assert(out@ == out_pre + display_of(table@, id));
                                    assert(suffix.skip(3 + k as int) =~= v@.skip(
                                        pos + 3 + k as int,
                                    ));
                                    assert(decode_spec(suffix, table@) == display_of(table@, id)
                                        + decode_spec(v@.skip(pos + 3 + k as int), table@));
                                    assert(out_pre + decode_spec(suffix, table@) =~= out@
                                        + decode_spec(v@.skip(pos + 3 + k as int), table@));
                                }
                            },
                            None => {
                                proof {
                                    assert(!(token_at(suffix) && has_token(
                                        table@,
                                        token_id(suffix),
                                    )));
                                }
                            },
                        }
                    },
                    None => {
                        proof {
                            assert(num_of(suffix.subrange(2, 2 + k as int)) > u64::MAX);
                            assert(!token_at(suffix));
                        }
                    },
                }
            } else {
                proof {
                    if suffix.len() >= 4 && digit_run(suffix, 2) >= 1 && 2 + digit_run(suffix, 2)
                        < suffix.len() {
                        assert(suffix[2 + digit_run(suffix, 2)] == v@[pos + 2 + k]);
                    }
                    assert(!token_at(suffix));
                }
            }
        } else {
            proof {
                if suffix.len() >= 4 {
                    assert(suffix[0] == v@[pos as int]);
                    assert(suffix[1] == v@[pos + 1]);
                }
                assert(!token_at(suffix));
            }
        }
        if !replaced {
            out.push(v[pos]);
            proof {
                assert(suffix[0] == v@[pos as int]);
                assert(out@ =~= out_pre + seq![suffix[0]]);
                assert(suffix.skip(1) =~= v@.skip(pos + 1));
                assert(decode_spec(suffix, table@) == seq![suffix[0]] + decode_spec(
                    v@.skip(pos + 1),
                    table@,
                ));
                assert(out_pre + decode_spec(suffix, table@) =~= out@ + decode_spec(
                    v@.skip(pos + 1),
                    table@,
                ));
            }
        }
        pos = pos + step;
    }
    proof {
        assert(v@.skip(n as int) =~= Seq::<char>::empty());
        assert(out@ + Seq::<char>::empty() =~= out@);
    }
    chars_to_string(&out)
}

/// The distinct, not-yet-cached token ids of `text`: the ids the caller
/// must resolve through the gateway, each at most once per batch, before
/// the text is decoded.
pub fn unresolved_tokens(text: &str, table: &MentionTable) -> (r: Vec<u64>)
    requires
        table.wf(),
    ensures
        forall|i: int|
            0 <= i < r@.len() ==> token_ids(text@).contains(#[trigger] r@[i]) && !has_token(
                table@,
                r@[i],
            ),
        forall|i: int, j: int| 0 <= i < j < r@.len() ==> r@[i] != r@[j],
        forall|id: u64|
            token_ids(text@).contains(id) && !has_token(table@, id) ==> r@.contains(id),
{
    let v = string_to_chars(text);
    let mut r: Vec<u64> = Vec::new();
    let mut pos: usize = 0;
    let n = v.len();
    proof {
        assert(v@.skip(0) =~= v@);
    }
    while pos < n
        invariant
            table.wf(),
            n == v@.len(),
            0 <= pos <= n,
            forall|i: int|
                0 <= i < r@.len() ==> token_ids(v@).contains(#[trigger] r@[i]) && !has_token(
                    table@,
                    r@[i],
                ),
            forall|i: int, j: int| 0 <= i < j < r@.len() ==> r@[i] != r@[j],
            forall|id: u64|
                token_ids(v@.skip(pos as int)).contains(id) ==> token_ids(v@).contains(id),
            forall|id: u64|
                token_ids(v@).contains(id) && !has_token(table@, id) ==> r@.contains(id)
                    || token_ids(v@.skip(pos as int)).contains(id),
        decreases n - pos,
    {
        let ghost suffix = v@.skip(pos as int);
        let ghost r_pre = r@;
        let mut step: usize = 1;
        if v[pos] == '<' && pos + 1 < n && v[pos + 1] == '@' {
            let k = scan_digit_run(&v, pos + 2);
            proof {
                assert forall|j: int| 2 <= j < 2 + k implies is_digit(#[trigger] suffix[j]) by {
                    assert(suffix[j] == v@[pos + j]);
                    assert(is_digit(v@[pos + j]));
                }
                if pos + 2 + k < n {
                    assert(suffix[2 + k] == v@[pos + 2 + k]);
                }
                lemma_digit_run_exact(suffix, 2, k as int);
            }
            if k >= 1 && pos + 2 + k < n && v[pos + 2 + k] == '>' {
                let parsed = parse_u64(&v, pos + 2, pos + 2 + k);
                proof {
                    assert(v@.subrange(pos + 2 as int, pos + 2 + k as int) =~= suffix.subrange(
                        2,
                        2 + k as int,
                    ));
                }
                match parsed {
                    Some(id) => {
                        proof {
                            assert(token_at(suffix));
                            assert(token_id(suffix) == id);
                            assert(token_len(suffix) == 3 + k);
                            assert(token_ids(suffix).contains(id));
                            assert(suffix.skip(3 + k as int) =~= v@.skip(pos + 3 + k as int));
                            assert(token_ids(suffix) == token_ids(
                                v@.skip(pos + 3 + k as int),
                            ).insert(id));
                        }
                        step = 3 + k;
                        let cached = match table.lookup(id) {
                            Some(_) => true,
                            None => false,
                        };
                        if !cached {
                            let mut seen = false;
                            let rn = r.len();
                            let mut q: usize = 0;
                            while q < rn
                                invariant
                                    rn == r@.len(),
                                    0 <= q <= rn,
                                    seen <==> exists|j: int| 0 <= j < q && r@[j] == id,
                                decreases rn - q,
                            {
                                if r[q] == id {
                                    seen = true;
                                }
                                q = q + 1;
                            }
                            if !seen {
                                proof {
                                    assert(token_ids(v@).contains(id));
                                }
                                r.push(id);
                                proof {
                                    assert(forall|j: int|
                                        0 <= j < r_pre.len() ==> r@[j] == r_pre[j]);
                                    assert(r@[r_pre.len() as int] == id);
                                    assert(forall|x: u64|
                                        r_pre.contains(x) ==> #[trigger] r@.contains(x));
                                    assert(r@.contains(id));
                                }
                            } else {
                                proof {
                                    assert(r@.contains(id));
                                }
                            }
                        }
                        proof {
                            assert(forall|x: u64|
                                r_pre.contains(x) ==> #[trigger] r@.contains(x));
                            assert forall|id2: u64|
                                token_ids(v@).contains(id2) && !has_token(table@, id2) implies r@
                                .contains(id2) || token_ids(v@.skip((pos + step) as int)).contains(
                                id2,
                            ) by {
                                if r_pre.contains(id2) {
                                    assert(r@.contains(id2));
                                } else if token_ids(suffix).contains(id2) {
                                    if id2 == id {
                                        assert(!has_token(table@, id));
                                        assert(r@.contains(id));
                                    } else {
                                        assert(token_ids(v@.skip((pos + step) as int)).contains(
                                            id2,
                                        ));
                                    }
                                }
                            }
                        }
                    },
                    None => {
                        proof {
                            assert(num_of(suffix.subrange(2, 2 + k as int)) > u64::MAX);
                            assert(!token_at(suffix));
                            assert(suffix.skip(1) =~= v@.skip(pos + 1));
                            assert(token_ids(suffix) == token_ids(v@.skip(pos + 1)));
                        }
                    },
                }
            } else {
                proof {
                    if suffix.len() >= 4 && digit_run(suffix, 2) >= 1 && 2 + digit_run(suffix, 2)
                        < suffix.len() {
                        assert(suffix[2 + digit_run(suffix, 2)] == v@[pos + 2 + k]);
                    }
                    assert(!token_at(suffix));
                    assert(suffix.skip(1) =~= v@.skip(pos + 1));
                    assert(token_ids(suffix) == token_ids(v@.skip(pos + 1)));
                }
            }
        } else {
            proof {
                if suffix.len() >= 4 {
                    assert(suffix[0] == v@[pos as int]);
                    assert(suffix[1] == v@[pos + 1]);
                }
                assert(!token_at(suffix));
                assert(suffix.skip(1) =~= v@.skip(pos + 1));
                assert(token_ids(suffix) == token_ids(v@.skip(pos + 1)));
            }
        }
        pos = pos + step;
    }
    proof {
        assert(v@.skip(n as int) =~= Seq::<char>::empty());
    }
    r
}

/// Whether entry `j`'s display name matches the front of `s`,
/// case-insensitively.
pub open spec fn match_front(s: Seq<char>, t: Seq<EntryView>, j: int) -> bool {
    &&& 0 <= j < t.len()
    &&& 1 <= t[j].display.len() <= s.len()
    &&& fold_of(s.subrange(0, t[j].display.len() as int)) == fold_of(t[j].display)
}

/// The entry whose display name is the longest match at the front of
/// `s`, among entries `j` and later; -1 when none matches. Among equal
/// lengths the earliest entry wins (with a well-formed table, lengths
/// never tie).
pub open spec fn best_from(s: Seq<char>, t: Seq<EntryView>, j: int) -> int
    decreases t.len() - j,
{
    if j < 0 || j >= t.len() {
        -1
    } else {
        let rest = best_from(s, t, j + 1);
        if match_front(s, t, j) && (rest == -1 || t[j].display.len() >= t[rest].display.len()) {
            j
        } else {
            rest
        }
    }
}

/// The best matching entry at the front of `s`, or -1.
pub open spec fn best_match(s: Seq<char>, t: Seq<EntryView>) -> int {
    best_from(s, t, 0)
}

/// What `best_from` yields: nothing matches, or a longest match.
pub proof fn lemma_best_from(s: Seq<char>, t: Seq<EntryView>, j: int)
    requires
        0 <= j,
    ensures
        best_from(s, t, j) == -1 ==> forall|j2: int|
            j <= j2 < t.len() ==> !(#[trigger] match_front(s, t, j2)),
        best_from(s, t, j) != -1 ==> j <= best_from(s, t, j) < t.len() && match_front(
            s,
            t,
            best_from(s, t, j),
        ) && forall|j2: int|
            j <= j2 < t.len() && #[trigger] match_front(s, t, j2) ==> t[j2].display.len()
                <= t[best_from(s, t, j)].display.len(),
    decreases t.len() - j,
{
    if j < t.len() {
        lemma_best_from(s, t, j + 1);
    }
}

/// The encoded form of `s`: at each position, the longest cached display
/// name matching case-insensitively is replaced by its reference token;
/// text matching no cached name is left as it stands.
pub open spec fn encode_spec(s: Seq<char>, t: Seq<EntryView>) -> Seq<char>
    decreases s.len(),
{
    if s.len() == 0 {
        Seq::empty()
    } else if best_match(s, t) >= 0 && 1 <= t[best_match(s, t)].display.len() <= s.len() {
        token_text(t[best_match(s, t)].token) + encode_spec(
            s.skip(t[best_match(s, t)].display.len() as int),
            t,
        )
    } else {
        seq![s[0]] + encode_spec(s.skip(1), t)
    }
}

/// Rewrites every occurrence of a cached display name (longest match
/// first, case-insensitively) back to its reference token; names with no
/// cached entry are left untouched.
pub fn encode(text: &str, table: &MentionTable) -> (r: String)
    requires
        table.wf(),
    ensures
        r@ == encode_spec(text@, table@),
{
    let v = string_to_chars(text);
    let mut out: Vec<char> = Vec::new();
    let mut pos: usize = 0;
    let n = v.len();
    proof {
        assert(v@.skip(0) =~= v@);
    }
    while pos < n
        invariant
            table.wf(),
            n == v@.len(),
            0 <= pos <= n,
            encode_spec(v@, table@) == out@ + encode_spec(v@.skip(pos as int), table@),
        decreases n - pos,
    {
        let ghost suffix = v@.skip(pos as int);
        let ghost out_pre = out@;
        let tn = table.entries.len();
        let mut best: usize = tn;
        let mut best_len: usize = 0;
        let mut jj: usize = tn;
        while jj > 0
            invariant
                table.wf(),
                n == v@.len(),
                0 <= pos < n,
                suffix == v@.skip(pos as int),
                tn == table@.len(),
                0 <= jj <= tn,
                best <= tn,
                best == tn ==> best_from(suffix, table@, jj as int) == -1,
                best < tn ==> best_from(suffix, table@, jj as int) == best && best_len == table@[
                    best as int
                ].display.len(),
            decreases jj,
        {
            let j = jj - 1;
            let ghost old_best = best;
            let ghost old_blen = best_len;
            let dv = string_to_chars(table.entries[j].display.as_str());
            let dlen = dv.len();
            proof {
                assert(dv@ == table@[j as int].display);
            }
            let matched = if dlen >= 1 && dlen <= n - pos {
                let window = subrange_chars(&v, pos, pos + dlen);
                let ws = chars_to_string(&window);
                let m = eq_fold(ws.as_str(), table.entries[j].display.as_str());
                proof {
                    assert(window@ =~= suffix.subrange(0, dlen as int));
                }
                m
            } else {
                false
            };
            proof {
                assert(matched == match_front(suffix, table@, j as int));
            }
            if matched && (best == tn || dlen >= best_len) {
                best = j;
                best_len = dlen;
            }
            proof {
                let rest = best_from(suffix, table@, j + 1);
                if old_best == tn {
                    assert(rest == -1);
                } else {
                    assert(rest == old_best);
                    assert(old_blen == table@[old_best as int].display.len());
                }
                assert(best_from(suffix, table@, j as int) == ({
                    if match_front(suffix, table@, j as int) && (rest == -1 || table@[
                        j as int
                    ].display.len() >= table@[rest].display.len()) {
                        j as int
                    } else {
                        rest
                    }
                }));
            }
            jj = j;
        }
        proof {
            lemma_best_from(suffix, table@, 0);
        }
        let mut step: usize = 1;
        if best < tn {
            proof {
                assert(best_match(suffix, table@) == best as int);
            }
            out.push('<');
            out.push('@');
            let ds = u64_to_digits(table.entries[best].token);
            extend_chars(&mut out, &ds, 0, ds.len());
            out.push('>');
            step = best_len;
            proof {
                assert(match_front(suffix, table@, best as int));
                assert(ds@.subrange(0, ds@.len() as int) =~= ds@);
                assert(out@ =~= out_pre + token_text(table@[best as int].token));
                assert(suffix.skip(best_len as int) =~= v@.skip(pos + best_len));
                assert(encode_spec(suffix, table@) == token_text(table@[best as int].token)
                    + encode_spec(v@.skip(pos + best_len), table@));
                assert(out_pre + encode_spec(suffix, table@) =~= out@ + encode_spec(
                    v@.skip(pos + best_len),
                    table@,
                ));
            }
        } else {
            proof {
                assert(best_match(suffix, table@) == -1);
                assert(suffix.len() == n - pos);
            }
            out.push(v[pos]);
            proof {
                assert(suffix[0] == v@[pos as int]);
                assert(out@ =~= out_pre + seq![suffix[0]]);
                assert(suffix.skip(1) =~= v@.skip(pos + 1));
                assert(encode_spec(suffix, table@) == seq![suffix[0]] + encode_spec(
                    v@.skip(pos + 1),
                    table@,
                ));
                assert(out_pre + encode_spec(suffix, table@) =~= out@ + encode_spec(
                    v@.skip(pos + 1),
                    table@,
                ));
            }
        }
        pos = pos + step;
    }
    proof {
        assert(v@.skip(n as int) =~= Seq::<char>::empty());
        assert(out@ + Seq::<char>::empty() =~= out@);
    }
    chars_to_string(&out)
}

/// An input on which decoding is cleanly invertible: every cached token
/// in it is written canonically (no leading zero in the id), and the
/// only case-insensitive occurrences of cached display names in the
/// decoded text are the replacements decoding itself introduced.
pub open spec fn ready(s: Seq<char>, t: Seq<EntryView>) -> bool
    decreases s.len(),
{
    if s.len() == 0 {
        true
    } else if token_at(s) && has_token(t, token_id(s)) {
        &&& (token_len(s) == 4 || s[2] != '0')
        &&& (forall|j: int|
            #[trigger] match_front(decode_spec(s, t), t, j) ==> j == index_of_token(
                t,
                token_id(s),
            ))
        &&& ready(s.skip(token_len(s)), t)
    } else {
        &&& (forall|j: int| !(#[trigger] match_front(decode_spec(s, t), t, j)))
        &&& ready(s.skip(1), t)
    }
}

/// A canonically written token is exactly the text of its id.
proof fn lemma_token_text_canonical(s: Seq<char>, id: u64)
    requires
        token_at(s),
        id == token_id(s),
        token_len(s) == 4 || s[2] != '0',
    ensures
        s.subrange(0, token_len(s)) == token_text(id),
{
    let k = digit_run(s, 2);
    let digits = s.subrange(2, 2 + k);
    lemma_digit_run_digits(s, 2);
    assert(all_digits(digits)) by {
        assert(forall|j: int| 0 <= j < k ==> #[trigger] digits[j] == s[2 + j]);
    }
    assert(digits.len() == k);
    assert(digits.len() > 1 ==> digits[0] != '0') by {
        if k > 1 {
            assert(digits[0] == s[2]);
        }
    }
    lemma_num_of_canonical(digits);
    assert(id as nat == num_of(digits));
    assert(digits_of(id as nat) == digits);
    assert(s.subrange(0, token_len(s)) =~= token_text(id)) by {
        let lhs = s.subrange(0, 3 + k);
        let rhs = token_text(id);
        assert(rhs.len() == 3 + k);
        assert(lhs[0] == '<' && rhs[0] == '<');
        assert(lhs[1] == '@' && rhs[1] == '@');
        assert(forall|j: int| 0 <= j < k ==> #[trigger] rhs[2 + j] == digits[j]);
        assert(forall|j: int| 0 <= j < k ==> #[trigger] lhs[2 + j] == s[2 + j]);
        assert(forall|j: int| 2 <= j < 2 + k ==> #[trigger] lhs[j] == rhs[j]);
        assert(lhs[2 + k] == s[2 + k] && rhs[2 + k] == '>');
    }
}

/// Encoding the decoded text restores the input exactly: every token the
/// table resolves reappears in its place, and all other text stands
/// unchanged.
pub proof fn lemma_mention_round_trip(s: Seq<char>, t: Seq<EntryView>)
    requires
        table_wf(t),
        ready(s, t),
    ensures
        encode_spec(decode_spec(s, t), t) == s,
    decreases s.len(),
{
    let d = decode_spec(s, t);
    if s.len() == 0 {
        assert(d =~= Seq::<char>::empty());
        assert(encode_spec(d, t) =~= s);
    } else if token_at(s) && has_token(t, token_id(s)) {
        let id = token_id(s);
        let l = token_len(s);
        assert(4 <= l <= s.len());
        let ji = index_of_token(t, id);
        assert(0 <= ji < t.len() && t[ji].token == id);
        let name = t[ji].display;
        let dl = name.len() as int;
        assert(1 <= dl);
        let rest = s.skip(l);
        let drest = decode_spec(rest, t);
        assert(d == name + drest);
        assert(d.subrange(0, dl) =~= name);
        assert(match_front(d, t, ji));
        lemma_best_from(d, t, 0);
        let b = best_match(d, t);
        assert(b != -1);
        assert(match_front(d, t, b));
        assert(b == ji);
        assert(encode_spec(d, t) == token_text(t[ji].token) + encode_spec(d.skip(dl), t));
        assert(d.skip(dl) =~= drest);
        lemma_mention_round_trip(rest, t);
        lemma_token_text_canonical(s, id);
        assert(encode_spec(d, t) =~= s.subrange(0, l) + s.skip(l));
        assert(s.subrange(0, l) + s.skip(l) =~= s);
    } else {
        let drest = decode_spec(s.skip(1), t);
        assert(d == seq![s[0]] + drest);
        lemma_best_from(d, t, 0);
        let b = best_match(d, t);
        if b != -1 {
            assert(match_front(d, t, b));
            assert(false);
        }
        assert(d.len() >= 1);
        assert(encode_spec(d, t) == seq![d[0]] + encode_spec(d.skip(1), t));
        assert(d[0] == s[0]);
        assert(d.skip(1) =~= drest);
        lemma_mention_round_trip(s.skip(1), t);
        assert(encode_spec(d, t) =~= s);
    }
}

} // verus!
