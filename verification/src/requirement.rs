//! Requirement strings of the package index and the dependencies read from them.

use crate::text::{
    before_first, contains_pattern, find_char, find_pattern, first_index, first_occurrence,
    free_of, lemma_first_index, lemma_first_index_add, lemma_first_occurrence, lemma_free_of,
    occurs_at, slice, to_chars,
};
use vstd::prelude::*;
use vstd::string::*;

verus! {

/// Mathematical value of a [`Dep`]: a package name and the version it is pinned to.
pub struct DepView {
    pub name: Seq<char>,
    pub version: Seq<char>,
}

/// One dependency of a tool: a package name and a version token, or the
/// word `latest` where the requirement names no version.
#[derive(Debug, Clone)]
pub struct Dep {
    pub name: String,
    pub version: String,
}

impl View for Dep {
    type V = DepView;

    open spec fn view(&self) -> DepView {
        DepView { name: self.name@, version: self.version@ }
    }
}

/// The values of a sequence of dependencies, in the same order.
pub open spec fn dep_views(deps: Seq<Dep>) -> Seq<DepView> {
    Seq::new(deps.len(), |i: int| deps[i]@)
}

/// The text that pins a dependency: its name, `==`, its version.
pub open spec fn pinned(dep: DepView) -> Seq<char> {
    dep.name + seq!['=', '='] + dep.version
}

/// The fragment of a requirement that names the package and its version:
/// what precedes the first `;`, cut again before its first space.
pub open spec fn requirement_token(raw: Seq<char>) -> Seq<char> {
    before_first(before_first(raw, ';'), ' ')
}

/// The comparison operators of a version specifier, in the order in which
/// they are tried. The two-character operators come first, so that `>=` is
/// never taken for `>`.
pub open spec fn operators() -> Seq<Seq<char>> {
    seq!["=="@, ">="@, "<="@, "~="@, "!="@, ">"@, "<"@]
}

/// The first operator, at or after rank `from` in `operators`, that stands
/// somewhere in `token`.
pub open spec fn leading_operator_from(token: Seq<char>, from: int) -> Option<int>
    decreases operators().len() - from,
{
    if from < 0 || from >= operators().len() {
        None
    } else if contains_pattern(token, operators()[from]) {
        Some(from)
    } else {
        leading_operator_from(token, from + 1)
    }
}

/// The rank of the operator at which `token` is split, if it holds one.
pub open spec fn leading_operator(token: Seq<char>) -> Option<int> {
    leading_operator_from(token, 0)
}

/// True of the two quote characters, `"` and `'`.
pub open spec fn is_quote(c: char) -> bool {
    c == '"' || c == '\''
}

/// `s` without the quote characters it begins with.
pub open spec fn strip_leading_quotes(s: Seq<char>) -> Seq<char>
    decreases s.len(),
{
    if s.len() > 0 && is_quote(s.first()) {
        strip_leading_quotes(s.drop_first())
    } else {
        s
    }
}

/// `s` without the quote characters it ends with.
pub open spec fn strip_trailing_quotes(s: Seq<char>) -> Seq<char>
    decreases s.len(),
{
    if s.len() > 0 && is_quote(s.last()) {
        strip_trailing_quotes(s.drop_last())
    } else {
        s
    }
}

/// `s` without the quote characters at either end.
pub open spec fn strip_quotes(s: Seq<char>) -> Seq<char> {
    strip_trailing_quotes(strip_leading_quotes(s))
}

/// The version given to a requirement that names none.
pub open spec fn latest() -> Seq<char> {
    "latest"@
}

/// The dependency that a requirement string stands for.
///
/// There is none where the token is empty. Where the token holds an
/// operator, the one of least rank splits it at its first occurrence: the
/// name is what precedes it, the version what follows it, quotes stripped.
/// Where it holds none, the whole token is the name and the version is
/// `latest`.
pub open spec fn extract_dependency(raw: Seq<char>) -> Option<DepView> {
    let token = requirement_token(raw);
    if token.len() == 0 {
        None
    } else {
        match leading_operator(token) {
            Some(k) => {
                let op = operators()[k];
                let p = first_occurrence(token, op).unwrap();
                Some(
                    DepView {
                        name: token.take(p),
                        version: strip_quotes(token.skip(p + op.len())),
                    },
                )
            },
            None => Some(DepView { name: token, version: latest() }),
        }
    }
}

/// The marker of an optional extra.
pub open spec fn extra_marker() -> Seq<char> {
    "extra == "@
}

/// The marker of a condition on the interpreter's version.
pub open spec fn python_marker() -> Seq<char> {
    "python_version"@
}

/// True of the requirements that are kept: those that hold neither marker,
/// anywhere in the string.
pub open spec fn included(raw: Seq<char>) -> bool {
    !contains_pattern(raw, extra_marker()) && !contains_pattern(raw, python_marker())
}

/// The texts of a sequence of strings, in the same order.
pub open spec fn texts(strings: Seq<String>) -> Seq<Seq<char>> {
    Seq::new(strings.len(), |i: int| strings[i]@)
}

/// The dependencies read from a list of requirement strings: one for each
/// string that is kept and stands for a dependency, in the order of the list.
/// Nothing is merged: a package named twice is listed twice.
pub open spec fn kept_dependencies(raws: Seq<Seq<char>>) -> Seq<DepView>
    decreases raws.len(),
{
    if raws.len() == 0 {
        Seq::empty()
    } else {
        let before = kept_dependencies(raws.drop_last());
        match extract_dependency(raws.last()) {
            Some(dep) => if included(raws.last()) {
                before.push(dep)
            } else {
                before
            },
            None => before,
        }
    }
}

impl PartialEq for Dep {
    /// Two dependencies are equal when their names and their versions are.
    fn eq(&self, other: &Dep) -> (same: bool) {
        self.name == other.name && self.version == other.version
    }
}

impl vstd::std_specs::cmp::PartialEqSpecImpl for Dep {
    open spec fn obeys_eq_spec() -> bool {
        true
    }

    open spec fn eq_spec(&self, other: &Dep) -> bool {
        self.name@ == other.name@ && self.version@ == other.version@
    }
}

/// The operator of rank `k`.
fn operator(k: usize) -> (op: &'static str)
    requires
        k < operators().len(),
    ensures
        op@ == operators()[k as int],
{
    if k == 0 {
        "=="
    } else if k == 1 {
        ">="
    } else if k == 2 {
        "<="
    } else if k == 3 {
        "~="
    } else if k == 4 {
        "!="
    } else if k == 5 {
        ">"
    } else {
        "<"
    }
}

/// Tells whether `c` is one of the two quote characters.
fn quote(c: char) -> (yes: bool)
    ensures
        yes == is_quote(c),
{
    c == '"' || c == '\''
}

/// Finds what is left of `v[from..]` once the quotes at both ends are gone.
fn trim_quotes(v: &Vec<char>, from: usize) -> (bounds: (usize, usize))
    requires
        from <= v.len(),
    ensures
        from <= bounds.0 <= bounds.1 <= v.len(),
        v@.subrange(bounds.0 as int, bounds.1 as int) == strip_quotes(v@.skip(from as int)),
{
    let mut a: usize = from;
    while a < v.len() && quote(v[a])
        invariant
            from <= a <= v.len(),
            strip_leading_quotes(v@.skip(from as int)) == strip_leading_quotes(v@.skip(a as int)),
        decreases v.len() - a,
    {
        assert(v@.skip(a as int).drop_first() =~= v@.skip(a + 1));
        a += 1;
    }
    let mut b: usize = v.len();
    while b > a && quote(v[b - 1])
        invariant
            a <= b <= v.len(),
            strip_quotes(v@.skip(from as int)) == strip_trailing_quotes(
                v@.subrange(a as int, b as int),
            ),
        decreases b - a,
    {
        assert(v@.subrange(a as int, b as int).drop_last() =~= v@.subrange(a as int, b - 1));
        b -= 1;
    }
    (a, b)
}

/// Tells whether a requirement is kept: it is dropped where it holds the
/// marker of an extra or of an interpreter version, wherever in the string.
pub fn should_include(raw: &str) -> (keep: bool)
    ensures
        keep == included(raw@),
{
    let chars = to_chars(raw);
    let extra = to_chars("extra == ");
    let python = to_chars("python_version");
    proof {
        lemma_first_occurrence(chars@, extra@);
        lemma_first_occurrence(chars@, python@);
    }
    find_pattern(&chars, &extra).is_none() && find_pattern(&chars, &python).is_none()
}

/// Reads a list of requirement strings: each string that stands for a
/// dependency and is kept gives one entry, in the order of the list.
pub fn keep_dependencies(raws: &Vec<String>) -> (deps: Vec<Dep>)
    ensures
        dep_views(deps@) == kept_dependencies(texts(raws@)),
{
    let mut deps: Vec<Dep> = Vec::new();
    let mut i: usize = 0;
    while i < raws.len()
        invariant
            i <= raws.len(),
            dep_views(deps@) == kept_dependencies(texts(raws@).take(i as int)),
        decreases raws.len() - i,
    {
        let raw = raws[i].as_str();
        assert(texts(raws@).take(i + 1).drop_last() =~= texts(raws@).take(i as int));
        match Dep::does_need_dist(raw) {
            Some(dep) => {
                if should_include(raw) {
                    deps.push(dep);
                }
            },
            None => {},
        }
        i += 1;
    }
    assert(texts(raws@).take(raws@.len() as int) =~= texts(raws@));
    deps
}

impl Dep {
    /// Builds a dependency from a name and a version, both copied.
    pub fn new_dep(name: &str, version: &str) -> (dep: Dep)
        ensures
            dep@.name == name@,
            dep@.version == version@,
    {
        Dep { name: String::from_str(name), version: String::from_str(version) }
    }

    /// The dependency as one pinned requirement, `name==version`.
    pub fn to_txt_str(&self) -> (text: String)
        ensures
            text@ == pinned(self@),
    {
        let mut text = String::from_str(self.name.as_str());
        proof {
            reveal_strlit("==");
        }
        text.append("==");
        text.append(self.version.as_str());
        text
    }

    /// Reads one requirement string of the package index.
    ///
    /// Markers after `;` and whatever follows the first space are left out.
    /// The answer is `None` where nothing is left.
    pub fn does_need_dist(req: &str) -> (dep: Option<Dep>)
        ensures
            match dep {
                Some(d) => extract_dependency(req@) == Some(d@),
                None => extract_dependency(req@) is None,
            },
    {
        let chars = to_chars(req);
        let semi = find_char(&chars, 0, ';');
        let head = slice(&chars, 0, semi);
        let end = find_char(&head, 0, ' ');
        let token = slice(&head, 0, end);
        assert(chars@.skip(0) =~= chars@ && head@.skip(0) =~= head@);
        if token.len() == 0 {
            return None;
        }
        let mut k: usize = 0;
        while k < 7
            invariant
                k <= 7,
                token@ == requirement_token(req@),
                token@ == req@.subrange(0, end as int),
                end <= req@.len(),
                token@.len() > 0,
                leading_operator(token@) == leading_operator_from(token@, k as int),
            decreases 7 - k,
        {
            let op = to_chars(operator(k));
            proof {
                lemma_first_occurrence(token@, op@);
            }
            match find_pattern(&token, &op) {
                Some(p) => {
                    let (a, b) = trim_quotes(&token, p + op.len());
                    let name = req.substring_char(0, p);
                    let version = req.substring_char(a, b);
                    assert(name@ =~= token@.take(p as int));
                    assert(version@ =~= token@.subrange(a as int, b as int));
                    return Some(Dep::new_dep(name, version));
                },
                None => {},
            }
            k += 1;
        }
        let name = req.substring_char(0, end);
        Some(Dep::new_dep(name, "latest"))
    }
}

/// The token is the part of the requirement that precedes its first `;` or
/// space, whichever comes first, and holds neither.
pub proof fn lemma_token(raw: Seq<char>)
    ensures
        requirement_token(raw).len() <= raw.len(),
        requirement_token(raw) == raw.take(requirement_token(raw).len() as int),
        free_of(requirement_token(raw), ';'),
        free_of(requirement_token(raw), ' '),
        requirement_token(raw).len() < raw.len() ==> raw[requirement_token(raw).len() as int] == ';'
            || raw[requirement_token(raw).len() as int] == ' ',
{
    let head = before_first(raw, ';');
    let token = requirement_token(raw);
    lemma_first_index(raw, ';');
    lemma_first_index(head, ' ');
}

/// Whatever follows the first space or the first `;` of a requirement has no
/// part in the dependency that is read from it.
pub proof fn lemma_rest_is_ignored(head: Seq<char>, rest: Seq<char>)
    requires
        free_of(head, ' '),
        free_of(head, ';'),
    ensures
        extract_dependency(head + seq![' '] + rest) == extract_dependency(head),
        extract_dependency(head + seq![';'] + rest) == extract_dependency(head),
{
    lemma_token_of_clean(head);
    lemma_token_cut(head, ' ', rest);
    lemma_token_cut(head, ';', rest);
}

/// A text without `;` and without space is its own token.
pub proof fn lemma_token_of_clean(head: Seq<char>)
    requires
        free_of(head, ' '),
        free_of(head, ';'),
    ensures
        requirement_token(head) == head,
{
    lemma_free_of(head, ';');
    lemma_free_of(head, ' ');
    assert(head.take(head.len() as int) =~= head);
}

/// A text without `;` and without space, followed by one of the two and by
/// anything, is the token of the whole.
pub proof fn lemma_token_cut(head: Seq<char>, cut: char, rest: Seq<char>)
    requires
        free_of(head, ' '),
        free_of(head, ';'),
        cut == ' ' || cut == ';',
    ensures
        requirement_token(head + seq![cut] + rest) == head,
{
    let raw = head + seq![cut] + rest;
    let tail = seq![cut] + rest;
    assert(raw =~= head + tail);
    lemma_free_of(head, ';');
    lemma_free_of(head, ' ');
    lemma_first_index_add(head, tail, ';');
    lemma_first_index(tail, ';');
    let semi = first_index(raw, ';');
    let before = raw.take(semi);
    let kept = tail.take(semi - head.len());
    assert(before =~= head + kept);
    lemma_first_index_add(head, kept, ' ');
}

/// The operator at which a token is split is one that stands in it, and no
/// operator of lesser rank does. There is none exactly when no operator
/// stands in the token.
pub proof fn lemma_leading_operator(token: Seq<char>)
    ensures
        match leading_operator(token) {
            Some(k) => 0 <= k < operators().len() && contains_pattern(token, operators()[k])
                && forall|j: int| 0 <= j < k ==> !contains_pattern(token, operators()[j]),
            None => forall|j: int|
                0 <= j < operators().len() ==> !contains_pattern(token, operators()[j]),
        },
{
    lemma_leading_operator_from(token, 0);
}

/// The statement of `lemma_leading_operator`, from rank `from` on.
pub proof fn lemma_leading_operator_from(token: Seq<char>, from: int)
    requires
        0 <= from,
    ensures
        match leading_operator_from(token, from) {
            Some(k) => from <= k < operators().len() && contains_pattern(token, operators()[k])
                && forall|j: int| from <= j < k ==> !contains_pattern(token, operators()[j]),
            None => forall|j: int|
                from <= j < operators().len() ==> !contains_pattern(token, operators()[j]),
        },
    decreases operators().len() - from,
{
    if from < operators().len() && !contains_pattern(token, operators()[from]) {
        lemma_leading_operator_from(token, from + 1);
    }
}

/// A token that is split at a bare `>` or `<` does not have `=` right after
/// it: `>=` and `<=` are tried first.
pub proof fn lemma_bare_comparison(token: Seq<char>, p: int)
    requires
        leading_operator(token) matches Some(k) && (operators()[k] == ">"@ || operators()[k]
            == "<"@) && first_occurrence(token, operators()[k]) == Some(p),
    ensures
        0 <= p < token.len(),
        p + 1 < token.len() ==> token[p + 1] != '=',
{
    reveal_strlit("==");
    reveal_strlit(">=");
    reveal_strlit("<=");
    reveal_strlit("~=");
    reveal_strlit("!=");
    reveal_strlit(">");
    reveal_strlit("<");
    lemma_leading_operator(token);
    let k = leading_operator(token).unwrap();
    let bare = operators()[k];
    lemma_first_occurrence(token, bare);
    let full = operators()[k - 4];
    if p + 1 < token.len() && token[p + 1] == '=' {
        assert(token.subrange(p, p + 2) =~= full);
        assert(occurs_at(token, full, p));
    }
}

/// No dependency is read exactly from the requirements whose token is
/// empty: the empty string and those that begin with `;` or with a space.
pub proof fn lemma_no_dependency(raw: Seq<char>)
    ensures
        extract_dependency(raw) is None <==> raw.len() == 0 || raw[0] == ';' || raw[0] == ' ',
{
    lemma_token(raw);
    let token = requirement_token(raw);
    if token.len() > 0 {
        assert(token[0] == raw[0]);
    }
}

/// The name of a dependency is empty only where the token begins with the
/// operator that splits it.
pub proof fn lemma_empty_name(raw: Seq<char>)
    ensures
        extract_dependency(raw) matches Some(dep) ==> (dep.name.len() == 0 <==> (leading_operator(
            requirement_token(raw),
        ) matches Some(k) && occurs_at(requirement_token(raw), operators()[k], 0))),
{
    let token = requirement_token(raw);
    lemma_leading_operator(token);
    if token.len() > 0 {
        if let Some(k) = leading_operator(token) {
            lemma_first_occurrence(token, operators()[k]);
        }
    }
}

/// What is left once the quotes are stripped is a piece of the text that
/// neither begins nor ends with a quote; all that precedes the piece and all
/// that follows it are quotes. The result gives where the piece begins.
pub proof fn lemma_strip_quotes(s: Seq<char>) -> (a: int)
    ensures
        0 <= a,
        a + strip_quotes(s).len() <= s.len(),
        strip_quotes(s) == s.subrange(a, a + strip_quotes(s).len()),
        forall|i: int| 0 <= i < a ==> is_quote(s[i]),
        forall|i: int| a + strip_quotes(s).len() <= i < s.len() ==> is_quote(s[i]),
        strip_quotes(s).len() > 0 ==> !is_quote(strip_quotes(s).first()) && !is_quote(
            strip_quotes(s).last(),
        ),
{
    let a = lemma_strip_leading_quotes(s);
    let middle = strip_leading_quotes(s);
    lemma_strip_trailing_quotes(middle);
    let kept = strip_quotes(s);
    assert forall|i: int| a + kept.len() <= i < s.len() implies is_quote(s[i]) by {
        assert(s[i] == middle[i - a]);
    }
    a
}

/// Stripping the leading quotes drops a run of quotes from the front and
/// stops at the first character that is none. The result gives its length.
pub proof fn lemma_strip_leading_quotes(s: Seq<char>) -> (a: int)
    ensures
        0 <= a <= s.len(),
        strip_leading_quotes(s) == s.skip(a),
        forall|i: int| 0 <= i < a ==> is_quote(s[i]),
        a < s.len() ==> !is_quote(s[a]),
    decreases s.len(),
{
    if s.len() > 0 && is_quote(s.first()) {
        let rest = s.drop_first();
        let b = lemma_strip_leading_quotes(rest);
        assert forall|i: int| 0 <= i < b + 1 implies is_quote(s[i]) by {
            if i > 0 {
                assert(s[i] == rest[i - 1]);
            }
        }
        b + 1
    } else {
        0
    }
}

/// Stripping the trailing quotes drops a run of quotes from the back and
/// stops at the last character that is none.
pub proof fn lemma_strip_trailing_quotes(s: Seq<char>)
    ensures
        strip_trailing_quotes(s).len() <= s.len(),
        strip_trailing_quotes(s) == s.take(strip_trailing_quotes(s).len() as int),
        forall|i: int| strip_trailing_quotes(s).len() <= i < s.len() ==> is_quote(s[i]),
        strip_trailing_quotes(s).len() > 0 ==> !is_quote(strip_trailing_quotes(s).last()),
    decreases s.len(),
{
    if s.len() > 0 && is_quote(s.last()) {
        let rest = s.drop_last();
        lemma_strip_trailing_quotes(rest);
        let kept = strip_trailing_quotes(s);
        assert forall|i: int| kept.len() <= i < s.len() implies is_quote(s[i]) by {
            if i < rest.len() {
                assert(s[i] == rest[i]);
            }
        }
    }
}

/// The positions, in a list of requirement strings, of those that give a
/// dependency: the strings that are kept and stand for one.
pub open spec fn kept_positions(raws: Seq<Seq<char>>) -> Seq<int>
    decreases raws.len(),
{
    if raws.len() == 0 {
        Seq::empty()
    } else {
        let before = kept_positions(raws.drop_last());
        if included(raws.last()) && extract_dependency(raws.last()) is Some {
            before.push(raws.len() - 1)
        } else {
            before
        }
    }
}

/// Every dependency read from a list comes from one requirement string of
/// its own, which is kept: dependency `k` is read from the string at
/// `kept_positions(raws)[k]`, these positions increase, and no string that is
/// kept and stands for a dependency is left out.
pub proof fn lemma_kept_dependencies(raws: Seq<Seq<char>>)
    ensures
        kept_positions(raws).len() == kept_dependencies(raws).len(),
        forall|k: int|
            0 <= k < kept_positions(raws).len() ==> {
                let i = #[trigger] kept_positions(raws)[k];
                &&& 0 <= i < raws.len()
                &&& included(raws[i])
                &&& extract_dependency(raws[i]) == Some(kept_dependencies(raws)[k])
            },
        forall|k: int, l: int|
            0 <= k < l < kept_positions(raws).len() ==> kept_positions(raws)[k] < kept_positions(
                raws,
            )[l],
        forall|i: int|
            0 <= i < raws.len() && included(#[trigger] raws[i]) && extract_dependency(raws[i])
                is Some ==> kept_positions(raws).contains(i),
    decreases raws.len(),
{
    if raws.len() > 0 {
        let init = raws.drop_last();
        lemma_kept_dependencies(init);
        let before = kept_positions(init);
        let now = kept_positions(raws);
        assert forall|i: int|
            0 <= i < raws.len() && included(#[trigger] raws[i]) && extract_dependency(raws[i])
                is Some implies now.contains(i) by {
            if i < init.len() {
                assert(init[i] == raws[i]);
                let k = choose|k: int| 0 <= k < before.len() && before[k] == i;
                assert(now[k] == i);
            } else {
                assert(now[now.len() - 1] == i);
            }
        }
    }
}

} // verus!
