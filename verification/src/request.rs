//! Parsing of the single request line.
//!
//! A request line is well formed when it starts with `GET ` and ends with
//! ` HTTP/1.1`; stripping both yields the request target. A malformed line
//! is rejected, and the caller treats that as fatal.

use vstd::prelude::*;

verus! {

/// Character-by-character string equality, proved against the string views.
pub fn str_eq(a: &str, b: &str) -> (r: bool)
    ensures
        r == (a@ == b@),
{
    let alen = a.unicode_len();
    let blen = b.unicode_len();
    if alen != blen {
        return false;
    }
    let mut i: usize = 0;
    while i < alen
        invariant
            i <= alen,
            alen == a@.len(),
            alen == b@.len(),
            forall|j: int| 0 <= j < i ==> a@[j] == b@[j],
        decreases alen - i,
    {
        if a.get_char(i) != b.get_char(i) {
            return false;
        }
        i += 1;
    }
    proof {
        assert(a@ =~= b@);
    }
    true
}

/// The request-line prefix that names the only accepted method.
pub open spec fn line_prefix() -> Seq<char> {
    "GET "@
}

/// The request-line suffix that names the only accepted protocol version.
pub open spec fn line_suffix() -> Seq<char> {
    " HTTP/1.1"@
}

/// A request line is well formed when it carries the `GET ` prefix and the
/// ` HTTP/1.1` suffix around a (possibly empty) target.
pub open spec fn well_formed_line(line: Seq<char>) -> bool {
    &&& line.len() >= 13
    &&& line.subrange(0, 4) == line_prefix()
    &&& line.subrange(line.len() - 9, line.len() as int) == line_suffix()
}

/// The target of a well-formed request line: what stands between the prefix
/// and the suffix.
pub open spec fn target_of(line: Seq<char>) -> Seq<char> {
    line.subrange(4, line.len() - 9)
}

/// Extracts the request target, exactly when the line is well formed.
pub fn parse_target(line: &str) -> (r: Option<String>)
    ensures
        r is Some <==> well_formed_line(line@),
        r matches Some(t) ==> t@ == target_of(line@),
{
    proof {
        reveal_strlit("GET ");
        reveal_strlit(" HTTP/1.1");
    }
    let n = line.unicode_len();
    if n < 13 {
        return None;
    }
    let prefix = line.substring_char(0, 4);
    if !str_eq(prefix, "GET ") {
        return None;
    }
    let suffix = line.substring_char(n - 9, n);
    if !str_eq(suffix, " HTTP/1.1") {
        return None;
    }
    let target = line.substring_char(4, n - 9);
    Some(target.to_owned())
}

/// The semicolon split of a target: the fields between consecutive `;`
/// delimiters, empty fields preserved. An empty target yields one empty
/// field, as splitting a string does.
pub open spec fn split_semi(s: Seq<char>) -> Seq<Seq<char>>
    decreases s.len(),
{
    if s.len() == 0 {
        seq![Seq::<char>::empty()]
    } else if s[0] == ';' {
        seq![Seq::<char>::empty()] + split_semi(s.drop_first())
    } else {
        let rest = split_semi(s.drop_first());
        seq![seq![s[0]] + rest[0]] + rest.drop_first()
    }
}

pub proof fn lemma_split_semi_nonempty(s: Seq<char>)
    ensures
        split_semi(s).len() >= 1,
    decreases s.len(),
{
    if s.len() > 0 {
        lemma_split_semi_nonempty(s.drop_first());
    }
}

/// A target without a delimiter is a single field.
pub proof fn lemma_split_semi_no_semi(s: Seq<char>)
    requires
        forall|j: int| 0 <= j < s.len() ==> s[j] != ';',
    ensures
        split_semi(s) == seq![s],
    decreases s.len(),
{
    if s.len() == 0 {
        assert(s =~= Seq::<char>::empty());
        assert(split_semi(s) =~~= seq![s]);
    } else {
        assert(forall|j: int| 0 <= j < s.drop_first().len() ==> s.drop_first()[j] == s[j + 1]);
        lemma_split_semi_no_semi(s.drop_first());
        assert(seq![s[0]] + s.drop_first() =~= s);
        assert(split_semi(s) =~~= seq![s]);
    }
}

/// Splitting at the first delimiter: the field before it, then the split of
/// what follows it.
pub proof fn lemma_split_semi_at_first(s: Seq<char>, k: int)
    requires
        0 <= k < s.len(),
        s[k] == ';',
        forall|j: int| 0 <= j < k ==> s[j] != ';',
    ensures
        split_semi(s) == seq![s.subrange(0, k)] + split_semi(s.subrange(k + 1, s.len() as int)),
    decreases k,
{
    if k == 0 {
        assert(s.subrange(0, 0) =~= Seq::<char>::empty());
        assert(s.subrange(1, s.len() as int) =~= s.drop_first());
        assert(split_semi(s) =~~= seq![s.subrange(0, 0)] + split_semi(
            s.subrange(1, s.len() as int),
        ));
    } else {
        let t = s.drop_first();
        assert(forall|j: int| 0 <= j < t.len() ==> t[j] == s[j + 1]);
        lemma_split_semi_at_first(t, k - 1);
        lemma_split_semi_nonempty(t.subrange(k, t.len() as int));
        assert(seq![s[0]] + t.subrange(0, k - 1) =~= s.subrange(0, k));
        assert(t.subrange(k, t.len() as int) =~= s.subrange(k + 1, s.len() as int));
        assert(split_semi(s) =~~= seq![s.subrange(0, k)] + split_semi(
            s.subrange(k + 1, s.len() as int),
        ));
    }
}

/// Splits a target into its semicolon-delimited fields, empty fields
/// preserved.
pub fn split_fields(target: &str) -> (r: Vec<String>)
    ensures
        r.deep_view() == split_semi(target@),
{
    let n = target.unicode_len();
    let mut r: Vec<String> = Vec::new();
    proof {
        assert(target@.subrange(0, n as int) =~= target@);
        assert(r.deep_view() + split_semi(target@) =~~= split_semi(target@));
    }
    let mut start: usize = 0;
    let mut i: usize = 0;
    while i < n
        invariant
            start <= i <= n,
            n == target@.len(),
            forall|j: int| start <= j < i ==> target@[j] != ';',
            r.deep_view() + split_semi(target@.subrange(start as int, n as int)) == split_semi(
                target@,
            ),
        decreases n - i,
    {
        if target.get_char(i) == ';' {
            let field = target.substring_char(start, i);
            let ghost before = r.deep_view();
            proof {
                let tail = target@.subrange(start as int, n as int);
                assert(forall|j: int| 0 <= j < i - start ==> tail[j] == target@[j + start]);
                lemma_split_semi_at_first(tail, i - start);
                assert(tail.subrange(0, i - start) =~= field@);
                assert(tail.subrange(i - start + 1, tail.len() as int) =~= target@.subrange(
                    i + 1,
                    n as int,
                ));
            }
            r.push(field.to_owned());
            proof {
                assert(r.deep_view() =~~= before + seq![field@]);
                assert((before + seq![field@]) + split_semi(target@.subrange(i + 1, n as int))
                    =~~= before + split_semi(target@.subrange(start as int, n as int)));
            }
            start = i + 1;
        }
        i += 1;
    }
    let last = target.substring_char(start, n);
    let ghost before = r.deep_view();
    proof {
        let tail = target@.subrange(start as int, n as int);
        assert(forall|j: int| 0 <= j < tail.len() ==> tail[j] == target@[j + start]);
        lemma_split_semi_no_semi(tail);
    }
    r.push(last.to_owned());
    proof {
        assert(r.deep_view() =~~= before + seq![last@]);
        assert(r.deep_view() =~~= split_semi(target@));
    }
    r
}

} // verus!
