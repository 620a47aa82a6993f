//! Names of archived copies: `{secs}-{micros:06}__{file_name}.json`, how a
//! name is read back, and which archived copy of a file is the newest.

use vstd::prelude::*;
use vstd::string::StringExecFns;
use crate::text::{
    all_digits, digits_value, lemma_decimal_len_bound, pow10,
    append_decimal, append_zero_padded_decimal, chars_of, decimal,
    is_digit, lemma_decimal, lemma_parse_decimal, lemma_zero_padded, parse_u64, parse_u64_spec,
    zero_padded,
};

verus! {

/// The extension every archived copy carries.
pub open spec fn json_suffix() -> Seq<char> {
    seq!['.', 'j', 's', 'o', 'n']
}

/// Position of the first `"__"` in `s` at or after `from`.
pub open spec fn find_double_underscore(s: Seq<char>, from: nat) -> Option<nat>
    decreases s.len() - from,
{
    if from + 1 >= s.len() {
        None
    } else if s[from as int] == '_' && s[from + 1int] == '_' {
        Some(from)
    } else {
        find_double_underscore(s, from + 1)
    }
}

/// Position of the first `c` in `s` at or after `from`.
pub open spec fn find_char(s: Seq<char>, c: char, from: nat) -> Option<nat>
    decreases s.len() - from,
{
    if from >= s.len() {
        None
    } else if s[from as int] == c {
        Some(from)
    } else {
        find_char(s, c, from + 1)
    }
}

/// The timestamp that the name `dest` of an archived copy of `file_name`
/// carries: `dest` is `{secs}-{micros}__{file_name}.json`, split at the first
/// `"__"` and then at the first `'-'`, each number read as `str::parse::<u64>`
/// reads it. `None` when `dest` is not an archived copy of exactly `file_name`.
pub open spec fn archive_stamp_of(dest: Seq<char>, file_name: Seq<char>) -> Option<(u64, u64)> {
    if dest.len() >= 5 && dest.subrange(dest.len() - 5, dest.len() as int) == json_suffix() {
        let stem = dest.subrange(0, dest.len() - 5);
        match find_double_underscore(stem, 0) {
            Some(i) => {
                if stem.subrange(i + 2int, stem.len() as int) == file_name {
                    let stamp = stem.subrange(0, i as int);
                    match find_char(stamp, '-', 0) {
                        Some(j) => match (
                            parse_u64_spec(stamp.subrange(0, j as int)),
                            parse_u64_spec(stamp.subrange(j + 1int, stamp.len() as int)),
                        ) {
                            (Some(secs), Some(micros)) => Some((secs, micros)),
                            _ => None,
                        },
                        None => None,
                    }
                } else {
                    None
                }
            },
            None => None,
        }
    } else {
        None
    }
}

proof fn lemma_find_double_underscore_step(s: Seq<char>, from: nat)
    requires
        from + 1 < s.len(),
        !(s[from as int] == '_' && s[from + 1int] == '_'),
    ensures
        find_double_underscore(s, from) == find_double_underscore(s, from + 1),
{
}

proof fn lemma_find_char_step(s: Seq<char>, c: char, from: nat)
    requires
        from < s.len(),
        s[from as int] != c,
    ensures
        find_char(s, c, from) == find_char(s, c, from + 1),
{
}

/// Reads the timestamp back out of the name of an archived copy of
/// `file_name`; `None` if `dest_name` is not an archive of exactly `file_name`.
pub fn parse_archive_stamp(dest_name: &str, file_name: &str) -> (r: Option<(u64, u64)>)
    ensures
        r == archive_stamp_of(dest_name@, file_name@),
{
    let d = chars_of(dest_name);
    let f = chars_of(file_name);
    let n = d.len();
    if n < 5 {
        return None;
    }
    let stem_len = n - 5;
    if !(d[stem_len] == '.' && d[stem_len + 1] == 'j' && d[stem_len + 2] == 's' && d[stem_len + 3]
        == 'o' && d[stem_len + 4] == 'n') {
        assert(d@.subrange(stem_len as int, n as int)[0] == d@[stem_len as int]);
        assert(d@.subrange(stem_len as int, n as int)[1] == d@[stem_len + 1]);
        assert(d@.subrange(stem_len as int, n as int)[2] == d@[stem_len + 2]);
        assert(d@.subrange(stem_len as int, n as int)[3] == d@[stem_len + 3]);
        assert(d@.subrange(stem_len as int, n as int)[4] == d@[stem_len + 4]);
        assert(d@.subrange(stem_len as int, n as int) != json_suffix());
        return None;
    }
    assert(d@.subrange(stem_len as int, n as int) =~= json_suffix());
    let ghost stem = d@.subrange(0, stem_len as int);
    let mut i: usize = 0;
    while i + 1 < stem_len && !(d[i] == '_' && d[i + 1] == '_')
        invariant
            d@ == dest_name@,
            n == d@.len(),
            stem_len + 5 == n,
            stem == d@.subrange(0, stem_len as int),
            i <= stem_len,
            find_double_underscore(stem, 0) == find_double_underscore(stem, i as nat),
        decreases stem_len - i,
    {
        proof {
            lemma_find_double_underscore_step(stem, i as nat);
        }
        i = i + 1;
    }
    if i + 1 >= stem_len {
        return None;
    }
    assert(find_double_underscore(stem, 0) == Some(i as nat));
    // The part after the first "__" must be exactly the file name.
    let rest_len = stem_len - (i + 2);
    let ghost rest = stem.subrange(i + 2, stem_len as int);
    if rest_len != f.len() {
        assert(rest.len() != file_name@.len());
        assert(stem.subrange(i + 2int, stem.len() as int) != file_name@);
        return None;
    }
    let mut k: usize = 0;
    while k < rest_len
        invariant
            d@ == dest_name@,
            f@ == file_name@,
            n == d@.len(),
            stem_len + 5 == n,
            stem == d@.subrange(0, stem_len as int),
            i + 2 <= stem_len,
            rest_len == stem_len - (i + 2),
            rest == stem.subrange(i + 2, stem_len as int),
            rest_len == f@.len(),
            k <= rest_len,
            forall|m: int| 0 <= m < k ==> rest[m] == f@[m],
            find_double_underscore(stem, 0) == Some(i as nat),
            d@.subrange(stem_len as int, n as int) == json_suffix(),
        decreases rest_len - k,
    {
        if d[i + 2 + k] != f[k] {
            assert(rest[k as int] == d@[i + 2 + k]);
            assert(rest != file_name@);
            return None;
        }
        k = k + 1;
    }
    assert(rest =~= file_name@);
    let ghost stamp = stem.subrange(0, i as int);
    let mut j: usize = 0;
    while j < i && d[j] != '-'
        invariant
            d@ == dest_name@,
            stem == d@.subrange(0, stem_len as int),
            i + 2 <= stem_len,
            stem_len < d@.len(),
            stamp == stem.subrange(0, i as int),
            j <= i,
            n == d@.len(),
            stem_len + 5 == n,
            rest == file_name@,
            rest == stem.subrange(i + 2, stem_len as int),
            find_double_underscore(stem, 0) == Some(i as nat),
            d@.subrange(stem_len as int, n as int) == json_suffix(),
            find_char(stamp, '-', 0) == find_char(stamp, '-', j as nat),
        decreases i - j,
    {
        proof {
            lemma_find_char_step(stamp, '-', j as nat);
        }
        j = j + 1;
    }
    if j >= i {
        return None;
    }
    assert(find_char(stamp, '-', 0) == Some(j as nat));
    let secs = parse_u64(&d, 0, j);
    let micros = parse_u64(&d, j + 1, i);
    assert(d@.subrange(0, j as int) =~= stamp.subrange(0, j as int));
    assert(d@.subrange(j + 1, i as int) =~= stamp.subrange(j + 1, stamp.len() as int));
    match (secs, micros) {
        (Some(s), Some(m)) => Some((s, m)),
        _ => None,
    }
}


/// The timestamp part of an archive name: whole seconds since the Unix
/// epoch, `'-'`, and the microseconds zero-padded to six digits.
pub open spec fn timestamp_text(secs: nat, micros: nat) -> Seq<char> {
    decimal(secs) + seq!['-'] + zero_padded(decimal(micros), 6)
}

/// The name of the archived copy of `file_name` taken at the given time.
pub open spec fn archive_name(secs: nat, micros: nat, file_name: Seq<char>) -> Seq<char> {
    timestamp_text(secs, micros) + seq!['_', '_'] + file_name + json_suffix()
}

/// Formats a timestamp as `{secs}-{micros:06}`.
pub fn format_timestamp(secs: u64, micros: u32) -> (r: String)
    ensures
        r@ == timestamp_text(secs as nat, micros as nat),
{
    let mut r = String::new();
    append_decimal(&mut r, secs);
    proof { reveal_strlit("-"); }
    r.append("-");
    append_zero_padded_decimal(&mut r, micros as u64, 6);
    assert(r@ =~= timestamp_text(secs as nat, micros as nat));
    r
}

/// The name under which the copy of `file_name` taken at the given time is
/// archived: `{secs}-{micros:06}__{file_name}.json`.
pub fn archive_file_name(secs: u64, micros: u32, file_name: &str) -> (r: String)
    ensures
        r@ == archive_name(secs as nat, micros as nat, file_name@),
{
    let mut r = format_timestamp(secs, micros);
    proof {
        reveal_strlit("__");
        reveal_strlit(".json");
    }
    r.append("__");
    r.append(file_name);
    r.append(".json");
    assert(r@ =~= archive_name(secs as nat, micros as nat, file_name@));
    r
}

proof fn lemma_find_double_underscore_at(s: Seq<char>, from: nat, at: nat)
    requires
        from <= at,
        at + 1 < s.len(),
        s[at as int] == '_',
        s[at + 1int] == '_',
        forall|k: int| from <= k < at ==> s[k] != '_',
    ensures
        find_double_underscore(s, from) == Some(at),
    decreases at - from,
{
    if from < at {
        lemma_find_double_underscore_at(s, from + 1, at);
    }
}

proof fn lemma_find_char_at(s: Seq<char>, c: char, from: nat, at: nat)
    requires
        from <= at < s.len(),
        s[at as int] == c,
        forall|k: int| from <= k < at ==> s[k] != c,
    ensures
        find_char(s, c, from) == Some(at),
    decreases at - from,
{
    if from < at {
        lemma_find_char_at(s, c, from + 1, at);
    }
}

/// Reading back the name under which a copy was archived gives the time it
/// was archived at, whatever the file's name.
pub proof fn law_archive_name_round_trip(secs: u64, micros: u64, file_name: Seq<char>)
    ensures
        archive_stamp_of(archive_name(secs as nat, micros as nat, file_name), file_name) == Some(
            (secs, micros),
        ),
{
    let d1 = decimal(secs as nat);
    let p = zero_padded(decimal(micros as nat), 6);
    let t = timestamp_text(secs as nat, micros as nat);
    let dest = archive_name(secs as nat, micros as nat, file_name);
    lemma_decimal(secs as nat);
    lemma_decimal(micros as nat);
    lemma_zero_padded(decimal(micros as nat), 6);
    let stem = t + seq!['_', '_'] + file_name;
    assert(dest.subrange(dest.len() - 5, dest.len() as int) =~= json_suffix());
    assert(dest.subrange(0, dest.len() - 5) =~= stem);
    assert forall|k: int| 0 <= k < t.len() implies stem[k] != '_' by {
        assert(stem[k] == t[k]);
        if k < d1.len() {
            assert(t[k] == d1[k]);
            assert(is_digit(d1[k]));
        } else if k > d1.len() {
            assert(t[k] == p[k - d1.len() - 1]);
            assert(is_digit(p[k - d1.len() - 1]));
        }
    }
    lemma_find_double_underscore_at(stem, 0, t.len());
    assert(stem.subrange(t.len() + 2int, stem.len() as int) =~= file_name);
    let stamp = stem.subrange(0, t.len() as int);
    assert(stamp =~= t);
    assert forall|k: int| 0 <= k < d1.len() implies stamp[k] != '-' by {
        assert(stamp[k] == d1[k]);
        assert(is_digit(d1[k]));
    }
    lemma_find_char_at(stamp, '-', 0, d1.len());
    assert(stamp.subrange(0, d1.len() as int) =~= d1);
    assert(stamp.subrange(d1.len() + 1int, stamp.len() as int) =~= p);
    lemma_parse_decimal(d1);
    lemma_parse_decimal(p);
}

/// `a` is an earlier timestamp than `b`.
pub open spec fn stamp_lt(a: (u64, u64), b: (u64, u64)) -> bool {
    a.0 < b.0 || (a.0 == b.0 && a.1 < b.1)
}

/// `names[i]` is the newest archived copy of `file_name` among `names`: the
/// one with the latest timestamp, and of several with that timestamp the last
/// one listed (as `Iterator::max_by_key` picks).
pub open spec fn is_newest_archive(names: Seq<Seq<char>>, file_name: Seq<char>, i: int) -> bool {
    &&& 0 <= i < names.len()
    &&& archive_stamp_of(names[i], file_name) is Some
    &&& forall|j: int|
        0 <= j < names.len() && #[trigger] archive_stamp_of(names[j], file_name) is Some ==> {
            &&& (j < i ==> !stamp_lt(
                archive_stamp_of(names[i], file_name)->0,
                archive_stamp_of(names[j], file_name)->0,
            ))
            &&& (j > i ==> stamp_lt(
                archive_stamp_of(names[j], file_name)->0,
                archive_stamp_of(names[i], file_name)->0,
            ))
        }
}

/// The position of the newest archived copy of `file_name` among `names`.
pub open spec fn newest_archive_index(names: Seq<Seq<char>>, file_name: Seq<char>) -> Option<int> {
    if exists|i: int| is_newest_archive(names, file_name, i) {
        Some(choose|i: int| is_newest_archive(names, file_name, i))
    } else {
        None
    }
}

/// The views of a list of strings.
pub open spec fn views_of(names: Seq<String>) -> Seq<Seq<char>> {
    names.map_values(|n: String| n@)
}

/// At most one entry is the newest.
pub proof fn lemma_newest_archive_unique(names: Seq<Seq<char>>, file_name: Seq<char>, i: int, k: int)
    requires
        is_newest_archive(names, file_name, i),
        is_newest_archive(names, file_name, k),
    ensures
        i == k,
{
    if i < k {
        assert(archive_stamp_of(names[k], file_name) is Some);
    } else if k < i {
        assert(archive_stamp_of(names[i], file_name) is Some);
    }
}

/// Among directory entry names, the position of the newest archived copy of
/// `file_name`; `None` when no entry is an archived copy of it.
pub fn newest_archive(names: &Vec<String>, file_name: &str) -> (r: Option<usize>)
    ensures
        match r {
            Some(i) => newest_archive_index(views_of(names@), file_name@) == Some(i as int),
            None => newest_archive_index(views_of(names@), file_name@) is None,
        },
{
    let ghost all = views_of(names@);
    let mut best: Option<(usize, (u64, u64))> = None;
    let mut k: usize = 0;
    while k < names.len()
        invariant
            all == views_of(names@),
            k <= names@.len(),
            match best {
                Some((b, st)) => {
                    &&& b < k
                    &&& archive_stamp_of(all[b as int], file_name@) == Some(st)
                    &&& is_newest_archive(all.take(k as int), file_name@, b as int)
                },
                None => forall|j: int|
                    0 <= j < k ==> #[trigger] archive_stamp_of(all[j], file_name@) is None,
            },
        decreases names@.len() - k,
    {
        let stamp = parse_archive_stamp(names[k].as_str(), file_name);
        assert(all[k as int] == names@[k as int]@);
        let ghost pre = all.take(k as int);
        let ghost post = all.take(k + 1);
        assert forall|j: int| 0 <= j < k implies post[j] == pre[j] && pre[j] == all[j] by {}
        assert(post[k as int] == all[k as int]);
        match stamp {
            None => {
                proof {
                    if let Some((b, st)) = best {
                        assert forall|j: int|
                            0 <= j < post.len() && #[trigger] archive_stamp_of(post[j], file_name@) is Some implies {
                                &&& (j < b ==> !stamp_lt(
                                    archive_stamp_of(post[b as int], file_name@)->0,
                                    archive_stamp_of(post[j], file_name@)->0,
                                ))
                                &&& (j > b ==> stamp_lt(
                                    archive_stamp_of(post[j], file_name@)->0,
                                    archive_stamp_of(post[b as int], file_name@)->0,
                                ))
                            } by {
                            assert(j < k);
                            assert(archive_stamp_of(pre[j], file_name@) is Some);
                        }
                    }
                }
            },
            Some(sk) => {
                let replace = match best {
                    None => true,
                    Some((_, sb)) => !(sk.0 < sb.0 || (sk.0 == sb.0 && sk.1 < sb.1)),
                };
                proof {
                    if replace {
                        assert forall|j: int|
                            0 <= j < post.len() && #[trigger] archive_stamp_of(post[j], file_name@) is Some implies {
                                &&& (j < k ==> !stamp_lt(sk, archive_stamp_of(post[j], file_name@)->0))
                                &&& (j > k ==> stamp_lt(archive_stamp_of(post[j], file_name@)->0, sk))
                            } by {
                            if j < k {
                                assert(archive_stamp_of(pre[j], file_name@) is Some);
                                if let Some((b, sb)) = best {
                                    assert(archive_stamp_of(pre[b as int], file_name@) is Some);
                                }
                            }
                        }
                    } else {
                        let (b, sb) = best->0;
                        assert forall|j: int|
                            0 <= j < post.len() && #[trigger] archive_stamp_of(post[j], file_name@) is Some implies {
                                &&& (j < b ==> !stamp_lt(sb, archive_stamp_of(post[j], file_name@)->0))
                                &&& (j > b ==> stamp_lt(archive_stamp_of(post[j], file_name@)->0, sb))
                            } by {
                            if j < k {
                                assert(archive_stamp_of(pre[j], file_name@) is Some);
                            }
                        }
                    }
                }
                if replace {
                    best = Some((k, sk));
                }
            },
        }
        k = k + 1;
    }
    assert(all.take(names@.len() as int) =~= all);
    match best {
        Some((b, _)) => {
            proof {
                assert(is_newest_archive(all, file_name@, b as int));
                let c = choose|i: int| is_newest_archive(all, file_name@, i);
                lemma_newest_archive_unique(all, file_name@, b as int, c);
            }
            Some(b)
        },
        None => {
            proof {
                if exists|i: int| is_newest_archive(all, file_name@, i) {
                    let c = choose|i: int| is_newest_archive(all, file_name@, i);
                    assert(archive_stamp_of(all[c], file_name@) is Some);
                }
            }
            None
        },
    }
}


/// The microseconds of a timestamp are always written with exactly six
/// digits, zero-padded on the left, which read back as the microseconds:
/// `{secs}-{micros:06}`.
pub proof fn law_timestamp_micros_six_digits(secs: nat, micros: nat)
    requires
        micros < 1_000_000,
    ensures
        exists|m: Seq<char>|
            #[trigger] timestamp_text(secs, micros) == decimal(secs) + seq!['-'] + m && m.len() == 6
                && all_digits(m) && digits_value(m) == micros,
{
    reveal_with_fuel(pow10, 7);
    assert(pow10(6) == 1_000_000);
    lemma_decimal_len_bound(micros, 6);
    lemma_decimal(micros);
    lemma_zero_padded(decimal(micros), 6);
    let m = zero_padded(decimal(micros), 6);
    assert(m.len() == 6);
    assert(timestamp_text(secs, micros) == decimal(secs) + seq!['-'] + m);
}

/// A name that carries a timestamp without `_` followed by `__`, a file name
/// and `.json` is an archive of that file name only: read for any other
/// file name it gives nothing, even one it starts or ends with.
pub proof fn law_archive_of_another_file_is_not_read(
    stamp: Seq<char>,
    other: Seq<char>,
    file_name: Seq<char>,
)
    requires
        forall|k: int| 0 <= k < stamp.len() ==> stamp[k] != '_',
        other != file_name,
    ensures
        archive_stamp_of(
            stamp + seq!['_', '_'] + other + seq!['.', 'j', 's', 'o', 'n'],
            file_name,
        ) is None,
{
    let dest = stamp + seq!['_', '_'] + other + seq!['.', 'j', 's', 'o', 'n'];
    let stem = stamp + seq!['_', '_'] + other;
    assert(dest.subrange(dest.len() - 5, dest.len() as int) =~= json_suffix());
    assert(dest.subrange(0, dest.len() - 5) =~= stem);
    assert forall|k: int| 0 <= k < stamp.len() implies stem[k] != '_' by {
        assert(stem[k] == stamp[k]);
    }
    lemma_find_double_underscore_at(stem, 0, stamp.len());
    assert(stem.subrange(stamp.len() + 2int, stem.len() as int) =~= other);
}

/// Every archive name that is built for a file is read back as an archive
/// of that file only.
pub proof fn law_archive_name_is_only_of_its_file(
    secs: u64,
    micros: u64,
    other: Seq<char>,
    file_name: Seq<char>,
)
    requires
        other != file_name,
    ensures
        archive_stamp_of(archive_name(secs as nat, micros as nat, other), file_name) is None,
{
    let t = timestamp_text(secs as nat, micros as nat);
    let d1 = decimal(secs as nat);
    let p = zero_padded(decimal(micros as nat), 6);
    lemma_decimal(secs as nat);
    lemma_decimal(micros as nat);
    lemma_zero_padded(decimal(micros as nat), 6);
    assert forall|k: int| 0 <= k < t.len() implies t[k] != '_' by {
        if k < d1.len() {
            assert(t[k] == d1[k]);
            assert(is_digit(d1[k]));
        } else if k > d1.len() {
            assert(t[k] == p[k - d1.len() - 1]);
            assert(is_digit(p[k - d1.len() - 1]));
        }
    }
    assert(archive_name(secs as nat, micros as nat, other) =~= t + seq!['_', '_'] + other + seq![
        '.',
        'j',
        's',
        'o',
        'n',
    ]);
    law_archive_of_another_file_is_not_read(t, other, file_name);
}

/// The newest archived copy carries the latest timestamp, compared by
/// seconds and then by microseconds: no other copy of the file is later,
/// and every copy listed after it is strictly earlier.
pub proof fn law_newest_archive_has_latest_stamp(names: Seq<Seq<char>>, file_name: Seq<char>, j: int)
    requires
        newest_archive_index(names, file_name) is Some,
        0 <= j < names.len(),
        archive_stamp_of(names[j], file_name) is Some,
    ensures
        ({
            let i = newest_archive_index(names, file_name)->0;
            let (si, mi) = archive_stamp_of(names[i], file_name)->0;
            let (sj, mj) = archive_stamp_of(names[j], file_name)->0;
            &&& 0 <= i < names.len()
            &&& sj < si || (sj == si && mj <= mi)
            &&& j > i ==> (sj < si || (sj == si && mj < mi))
        }),
{
    let i = newest_archive_index(names, file_name)->0;
    assert(exists|k: int| is_newest_archive(names, file_name, k));
    assert(is_newest_archive(names, file_name, i));
}


/// When some entry is an archived copy of the file, there is a newest one.
pub proof fn law_newest_archive_exists(names: Seq<Seq<char>>, file_name: Seq<char>, j: int)
    requires
        0 <= j < names.len(),
        archive_stamp_of(names[j], file_name) is Some,
    ensures
        newest_archive_index(names, file_name) is Some,
    decreases names.len(),
{
    let last = names.len() - 1;
    let pre = names.drop_last();
    let sl = archive_stamp_of(names[last], file_name);
    assert forall|k: int| 0 <= k < pre.len() implies #[trigger] pre[k] == names[k] by {}
    if j < last {
        law_newest_archive_exists(pre, file_name, j);
        assert(pre[j] == names[j]);
        let b = choose|b: int| is_newest_archive(pre, file_name, b);
        assert(is_newest_archive(pre, file_name, b));
        assert(pre[b] == names[b]);
        let sb = archive_stamp_of(names[b], file_name)->0;
        if sl is Some && !stamp_lt(sl->0, sb) {
            assert forall|k: int|
                0 <= k < names.len() && #[trigger] archive_stamp_of(names[k], file_name) is Some implies {
                    &&& (k < last ==> !stamp_lt(sl->0, archive_stamp_of(names[k], file_name)->0))
                    &&& (k > last ==> stamp_lt(archive_stamp_of(names[k], file_name)->0, sl->0))
                } by {
                if k < last {
                    assert(pre[k] == names[k]);
                    assert(archive_stamp_of(pre[k], file_name) is Some);
                }
            }
            assert(is_newest_archive(names, file_name, last));
        } else {
            assert forall|k: int|
                0 <= k < names.len() && #[trigger] archive_stamp_of(names[k], file_name) is Some implies {
                    &&& (k < b ==> !stamp_lt(sb, archive_stamp_of(names[k], file_name)->0))
                    &&& (k > b ==> stamp_lt(archive_stamp_of(names[k], file_name)->0, sb))
                } by {
                if k < last {
                    assert(pre[k] == names[k]);
                    assert(archive_stamp_of(pre[k], file_name) is Some);
                }
            }
            assert(is_newest_archive(names, file_name, b));
        }
    } else {
        if exists|k: int| 0 <= k < pre.len() && #[trigger] archive_stamp_of(pre[k], file_name) is Some {
            let k0 = choose|k: int| 0 <= k < pre.len() && #[trigger] archive_stamp_of(pre[k], file_name) is Some;
            law_newest_archive_exists(pre, file_name, k0);
            let b = choose|b: int| is_newest_archive(pre, file_name, b);
            assert(is_newest_archive(pre, file_name, b));
            assert(pre[b] == names[b]);
            let sb = archive_stamp_of(names[b], file_name)->0;
            if !stamp_lt(sl->0, sb) {
                assert forall|k: int|
                    0 <= k < names.len() && #[trigger] archive_stamp_of(names[k], file_name) is Some implies {
                        &&& (k < last ==> !stamp_lt(sl->0, archive_stamp_of(names[k], file_name)->0))
                        &&& (k > last ==> stamp_lt(archive_stamp_of(names[k], file_name)->0, sl->0))
                    } by {
                    if k < last {
                        assert(pre[k] == names[k]);
                        assert(archive_stamp_of(pre[k], file_name) is Some);
                    }
                }
                assert(is_newest_archive(names, file_name, last));
            } else {
                assert forall|k: int|
                    0 <= k < names.len() && #[trigger] archive_stamp_of(names[k], file_name) is Some implies {
                        &&& (k < b ==> !stamp_lt(sb, archive_stamp_of(names[k], file_name)->0))
                        &&& (k > b ==> stamp_lt(archive_stamp_of(names[k], file_name)->0, sb))
                    } by {
                    if k < last {
                        assert(pre[k] == names[k]);
                        assert(archive_stamp_of(pre[k], file_name) is Some);
                    }
                }
                assert(is_newest_archive(names, file_name, b));
            }
        } else {
            assert forall|k: int|
                0 <= k < names.len() && #[trigger] archive_stamp_of(names[k], file_name) is Some implies {
                    &&& (k < last ==> !stamp_lt(sl->0, archive_stamp_of(names[k], file_name)->0))
                    &&& (k > last ==> stamp_lt(archive_stamp_of(names[k], file_name)->0, sl->0))
                } by {
                if k < last {
                    assert(pre[k] == names[k]);
                }
            }
            assert(is_newest_archive(names, file_name, last));
        }
    }
}

} // verus!
