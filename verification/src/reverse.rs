//! From an address to the name of its reverse-lookup zone.

use vstd::prelude::*;
use crate::text::{
    chars_of, doubled_at, free_of, join, join_with, lemma_join_no_double, lemma_next_match_at,
    lemma_split_free, lemma_split_joined, lemma_texts_push, matches_at, split, split_on, texts,
};

verus! {

/// Why an IPv6 address has no reverse zone.
#[derive(Clone, Copy, Debug, PartialEq, Eq)]
pub enum AddressError {
    /// `::` stands in the address more than once.
    MultipleCompression,
    /// The address has more than eight groups.
    TooManyGroups,
}

/// Each character of `s` as a text of its own.
pub open spec fn singletons(s: Seq<char>) -> Seq<Seq<char>> {
    Seq::new(s.len(), |i: int| seq![s[i]])
}

/// The reverse zone of a dotted IPv4 address: its dot-separated parts in
/// reverse order, under `in-addr.arpa`.
pub open spec fn ipv4_reverse_zone(address: Seq<char>) -> Seq<char> {
    join(split(address, "."@).reverse(), "."@) + ".in-addr.arpa"@
}

/// `n` zeros.
pub open spec fn zeros(n: int) -> Seq<char> {
    Seq::new(n as nat, |i: int| '0')
}

/// `group` with zeros in front, up to four characters.
pub open spec fn pad4(group: Seq<char>) -> Seq<char> {
    if group.len() >= 4 {
        group
    } else {
        zeros(4 - group.len()) + group
    }
}

/// Every group padded to four characters.
pub open spec fn padded(groups: Seq<Seq<char>>) -> Seq<Seq<char>> {
    Seq::new(groups.len(), |i: int| pad4(groups[i]))
}

/// The pieces of `address` around its occurrences of `::`.
pub open spec fn halves(address: Seq<char>) -> Seq<Seq<char>> {
    split(address, "::"@)
}

/// The groups in front of the `::` of `address`, or all its groups where
/// it has none.
pub open spec fn groups_before(address: Seq<char>) -> Seq<Seq<char>> {
    split(halves(address)[0], ":"@)
}

/// The groups behind the `::` of `address`; none where it has no `::`.
pub open spec fn groups_after(address: Seq<char>) -> Seq<Seq<char>> {
    if halves(address).len() == 2 {
        split(halves(address)[1], ":"@)
    } else {
        Seq::empty()
    }
}

/// Why `address` cannot be expanded, if it cannot.
pub open spec fn ipv6_fault(address: Seq<char>) -> Option<AddressError> {
    if halves(address).len() > 2 {
        Some(AddressError::MultipleCompression)
    } else if groups_before(address).len() + groups_after(address).len() > 8 {
        Some(AddressError::TooManyGroups)
    } else {
        None
    }
}

/// The eight groups of `address`, each of four characters or more: the
/// groups in front of `::`, then as many groups of zeros as are missing,
/// then the groups behind it.
pub open spec fn ipv6_groups(address: Seq<char>) -> Seq<Seq<char>> {
    let before = groups_before(address);
    let after = groups_after(address);
    padded(before) + Seq::new((8 - before.len() - after.len()) as nat, |i: int| "0000"@) + padded(
        after,
    )
}

/// `address` written in full: eight groups with colons between them.
pub open spec fn expanded_ipv6(address: Seq<char>) -> Result<Seq<char>, AddressError> {
    match ipv6_fault(address) {
        Some(e) => Err(e),
        None => Ok(join(ipv6_groups(address), ":"@)),
    }
}

/// The characters that are no colon.
pub open spec fn not_colon() -> spec_fn(char) -> bool {
    |c: char| c != ':'
}

/// The digits of a fully written address from the last to the first, with
/// dots between them.
pub open spec fn nibble_labels(expanded: Seq<char>) -> Seq<char> {
    join(singletons(expanded.filter(not_colon()).reverse()), "."@)
}

/// The reverse zone of an IPv6 address: the digits of its full form from
/// the last to the first, with dots between them, under `ip6.arpa`.
pub open spec fn ipv6_reverse_zone(address: Seq<char>) -> Result<Seq<char>, AddressError> {
    match expanded_ipv6(address) {
        Ok(expanded) => Ok(nibble_labels(expanded) + ".ip6.arpa"@),
        Err(e) => Err(e),
    }
}

/// The strings of `parts` from the last to the first.
pub fn reversed(parts: &Vec<String>) -> (out: Vec<String>)
    ensures
        texts(out@) == texts(parts@).reverse(),
{
    let n: usize = parts.len();
    let mut out: Vec<String> = Vec::new();
    let mut i: usize = n;
    while i > 0
        invariant
            n == parts.len(),
            i <= n,
            out.len() == n - i,
            forall|j: int| 0 <= j < out.len() ==> out@[j]@ == parts@[n - 1 - j]@,
        decreases i,
    {
        i = i - 1;
        out.push(parts[i].clone());
    }
    proof {
        assert(texts(out@) =~= texts(parts@).reverse());
    }
    out
}

/// The name of the reverse zone of a dotted IPv4 address.
pub fn ipv4_to_reverse_zone(address: &str) -> (out: String)
    ensures
        out@ == ipv4_reverse_zone(address@),
{
    let parts: Vec<String> = split_on(address, ".");
    let turned: Vec<String> = reversed(&parts);
    let mut out: String = join_with(&turned, ".");
    out.append(".in-addr.arpa");
    out
}

/// `group` with zeros in front, up to four characters.
pub fn pad_group(group: &str) -> (out: String)
    ensures
        out@ == pad4(group@),
{
    let n: usize = group.unicode_len();
    let mut out: String = String::new();
    let mut k: usize = n;
    proof {
        reveal_strlit("0");
    }
    while k < 4
        invariant
            n == group@.len(),
            n <= k,
            n < 4 ==> k <= 4 && out@ == zeros(k - n),
            n >= 4 ==> out@ == Seq::<char>::empty(),
        decreases 4 - k,
    {
        out.append("0");
        proof {
            reveal_strlit("0");
            assert(zeros(k - n) + "0"@ =~= zeros(k + 1 - n));
        }
        k = k + 1;
    }
    proof {
        assert(zeros(0) =~= Seq::<char>::empty());
        assert(Seq::<char>::empty() + group@ =~= group@);
    }
    out.append(group);
    out
}

/// Adds the padded form of each group of `groups` to `out`.
fn push_padded(out: &mut Vec<String>, groups: &Vec<String>)
    ensures
        texts(final(out)@) == texts(old(out)@) + padded(texts(groups@)),
{
    let ghost before = texts(out@);
    let mut i: usize = 0;
    while i < groups.len()
        invariant
            i <= groups.len(),
            texts(out@) == before + padded(texts(groups@)).take(i as int),
        decreases groups.len() - i,
    {
        let group: String = pad_group(groups[i].as_str());
        proof {
            lemma_texts_push(out@, group);
            let all = padded(texts(groups@));
            assert(all.take(i + 1) =~= all.take(i as int).push(all[i as int]));
            assert((before + all.take(i as int)).push(group@) =~= before + all.take(i + 1));
        }
        out.push(group);
        i = i + 1;
    }
    proof {
        assert(padded(texts(groups@)).take(groups.len() as int) =~= padded(texts(groups@)));
    }
}

/// Writes an IPv6 address in full: `::` replaced by the groups of zeros
/// that it stands for, every group padded to four digits.
pub fn expand_ipv6_address(ipv6: &str) -> (out: Result<String, AddressError>)
    ensures
        out is Ok ==> expanded_ipv6(ipv6@) == Ok::<Seq<char>, AddressError>(out->Ok_0@),
        out is Err ==> expanded_ipv6(ipv6@) == Err::<Seq<char>, AddressError>(out->Err_0),
{
    proof {
        reveal_strlit("::");
        reveal_strlit(":");
    }
    let pieces: Vec<String> = split_on(ipv6, "::");
    if pieces.len() > 2 {
        return Err(AddressError::MultipleCompression);
    }
    let before: Vec<String> = split_on(pieces[0].as_str(), ":");
    let after: Vec<String> = if pieces.len() == 2 {
        split_on(pieces[1].as_str(), ":")
    } else {
        Vec::new()
    };
    proof {
        assert(texts(pieces@)[0] == pieces@[0]@);
        assert(texts(before@) == groups_before(ipv6@));
        if pieces.len() == 2 {
            assert(texts(pieces@)[1] == pieces@[1]@);
        } else {
            assert(texts(after@) =~= Seq::<Seq<char>>::empty());
        }
        assert(texts(after@) == groups_after(ipv6@));
    }
    if before.len() > 8 || after.len() > 8 - before.len() {
        return Err(AddressError::TooManyGroups);
    }
    let missing: usize = 8 - before.len() - after.len();
    let mut groups: Vec<String> = Vec::new();
    push_padded(&mut groups, &before);
    let mut k: usize = 0;
    while k < missing
        invariant
            k <= missing,
            texts(groups@) == padded(texts(before@)) + Seq::new(k as nat, |i: int| "0000"@),
        decreases missing - k,
    {
        let zero: String = "0000".to_owned();
        proof {
            lemma_texts_push(groups@, zero);
            let more = Seq::new((k + 1) as nat, |i: int| "0000"@);
            assert(more =~= Seq::new(k as nat, |i: int| "0000"@).push("0000"@));
            assert((padded(texts(before@)) + Seq::new(k as nat, |i: int| "0000"@)).push("0000"@)
                =~= padded(texts(before@)) + more);
        }
        groups.push(zero);
        k = k + 1;
    }
    push_padded(&mut groups, &after);
    Ok(join_with(&groups, ":"))
}

/// The name of the reverse zone of an IPv6 address, written in full or
/// with `::`.
pub fn ipv6_to_reverse_zone(ipv6: &str) -> (out: Result<String, AddressError>)
    ensures
        out is Ok ==> ipv6_reverse_zone(ipv6@) == Ok::<Seq<char>, AddressError>(out->Ok_0@),
        out is Err ==> ipv6_reverse_zone(ipv6@) == Err::<Seq<char>, AddressError>(out->Err_0),
{
    let expanded: String = match expand_ipv6_address(ipv6) {
        Ok(expanded) => expanded,
        Err(e) => {
            return Err(e);
        },
    };
    let full: &str = expanded.as_str();
    let cs: Vec<char> = chars_of(full);
    let n: usize = cs.len();
    let mut digits: Vec<String> = Vec::new();
    let mut i: usize = 0;
    while i < n
        invariant
            cs@ == full@,
            n == cs.len(),
            i <= n,
            texts(digits@) == singletons(full@.take(i as int).filter(not_colon())),
        decreases n - i,
    {
        proof {
            reveal(Seq::filter);
            assert(full@.take(i + 1).drop_last() =~= full@.take(i as int));
        }
        if cs[i] != ':' {
            let digit: String = full.substring_char(i, i + 1).to_owned();
            proof {
                assert(full@.subrange(i as int, i + 1) =~= seq![cs@[i as int]]);
                lemma_texts_push(digits@, digit);
                let kept = full@.take(i as int).filter(not_colon());
                assert(full@.take(i + 1).filter(not_colon()) == kept.push(cs@[i as int]));
                assert(singletons(kept.push(cs@[i as int])) =~= singletons(kept).push(
                    seq![cs@[i as int]],
                ));
            }
            digits.push(digit);
        }
        i = i + 1;
    }
    proof {
        reveal(Seq::filter);
        assert(full@.take(n as int) =~= full@);
        assert(singletons(full@.filter(not_colon())).reverse() =~= singletons(
            full@.filter(not_colon()).reverse(),
        ));
    }
    let turned: Vec<String> = reversed(&digits);
    let mut out: String = join_with(&turned, ".");
    out.append(".ip6.arpa");
    Ok(out)
}

/// The reverse zone of dot-separated parts is the parts in reverse order,
/// dot-separated, under `in-addr.arpa`.
pub proof fn ipv4_zone_reverses_parts(parts: Seq<Seq<char>>)
    requires
        parts.len() >= 1,
        free_of(parts, '.'),
    ensures
        ipv4_reverse_zone(join(parts, "."@)) == join(parts.reverse(), "."@) + ".in-addr.arpa"@,
{
    reveal_strlit(".");
    assert("."@ =~= seq!['.']);
    let address = join(parts, seq!['.']);
    assert(address.subrange(0, address.len() as int) =~= address);
    lemma_split_joined(address, '.', 0, parts);
}

/// The reverse zone of the IPv4 address `a.b.c.d` is `d.c.b.a.in-addr.arpa`.
pub proof fn ipv4_zone_reverses_octets(a: Seq<char>, b: Seq<char>, c: Seq<char>, d: Seq<char>)
    requires
        free_of(seq![a, b, c, d], '.'),
    ensures
        ipv4_reverse_zone(a + "."@ + b + "."@ + c + "."@ + d) == d + "."@ + c + "."@ + b + "."@ + a
            + ".in-addr.arpa"@,
{
    let parts = seq![a, b, c, d];
    let dot = "."@;
    assert(join(parts, dot) == a + dot + b + dot + c + dot + d) by {
        assert(parts.drop_last() =~= seq![a, b, c]);
        assert(seq![a, b, c].drop_last() =~= seq![a, b]);
        assert(seq![a, b].drop_last() =~= seq![a]);
        assert(join(seq![a], dot) == a);
        assert(join(seq![a, b], dot) == a + dot + b);
        assert(join(seq![a, b, c], dot) == a + dot + b + dot + c);
    }
    let turned = parts.reverse();
    assert(turned =~= seq![d, c, b, a]);
    assert(join(turned, dot) == d + dot + c + dot + b + dot + a) by {
        assert(turned.drop_last() =~= seq![d, c, b]);
        assert(seq![d, c, b].drop_last() =~= seq![d, c]);
        assert(seq![d, c].drop_last() =~= seq![d]);
        assert(join(seq![d], dot) == d);
        assert(join(seq![d, c], dot) == d + dot + c);
        assert(join(seq![d, c, b], dot) == d + dot + c + dot + b);
    }
    ipv4_zone_reverses_parts(parts);
}

/// The groups of an address that can be expanded are eight, each of four
/// characters or more, none with a colon.
pub proof fn lemma_groups_are_full(address: Seq<char>)
    requires
        ipv6_fault(address) is None,
    ensures
        ipv6_groups(address).len() == 8,
        free_of(ipv6_groups(address), ':'),
        forall|p: int| 0 <= p < 8 ==> (#[trigger] ipv6_groups(address)[p]).len() >= 4,
{
    reveal_strlit(":");
    reveal_strlit("::");
    reveal_strlit("0000");
    assert(":"@ =~= seq![':']);
    let pieces = halves(address);
    let before = groups_before(address);
    let after = groups_after(address);
    let gap = Seq::new((8 - before.len() - after.len()) as nat, |i: int| "0000"@);
    let groups = ipv6_groups(address);
    lemma_split_free(pieces[0], ':', 0);
    if pieces.len() == 2 {
        lemma_split_free(pieces[1], ':', 0);
    }
    assert forall|p: int, k: int|
        0 <= p < groups.len() && 0 <= k < groups[p].len() implies groups[p][k] != ':' by {
        if p < before.len() {
            assert(groups[p] == pad4(before[p]));
            if before[p].len() < 4 && k >= 4 - before[p].len() {
                assert(groups[p][k] == before[p][k - (4 - before[p].len())]);
            }
        } else if p < before.len() + gap.len() {
            assert(groups[p] == "0000"@);
        } else {
            let q = p - before.len() - gap.len();
            assert(groups[p] == pad4(after[q]));
            if after[q].len() < 4 && k >= 4 - after[q].len() {
                assert(groups[p][k] == after[q][k - (4 - after[q].len())]);
            }
        }
    }
    assert forall|p: int| 0 <= p < 8 implies (#[trigger] groups[p]).len() >= 4 by {
        if p < before.len() {
            assert(groups[p] == pad4(before[p]));
        } else if p < before.len() + gap.len() {
            assert(groups[p] == "0000"@);
        } else {
            assert(groups[p] == pad4(after[p - before.len() - gap.len()]));
        }
    }
}

/// An address written in full expands to itself: what `::` stands for is
/// all that expansion adds.
pub proof fn expansion_is_stable(address: Seq<char>)
    requires
        expanded_ipv6(address) is Ok,
    ensures
        expanded_ipv6(expanded_ipv6(address)->Ok_0) == expanded_ipv6(address),
{
    reveal_strlit(":");
    reveal_strlit("::");
    assert(":"@ =~= seq![':']);
    assert("::"@ =~= seq![':', ':']);
    let groups = ipv6_groups(address);
    let full = join(groups, ":"@);
    lemma_groups_are_full(address);
    lemma_join_no_double(groups, ':');
    assert forall|k: int| 0 <= k < full.len() implies !matches_at(full, "::"@, k) by {
        assert(!doubled_at(full, ':', k));
        if k + 2 <= full.len() {
            if full.subrange(k, k + 2) == "::"@ {
                assert(full.subrange(k, k + 2)[0] == full[k]);
                assert(full.subrange(k, k + 2)[1] == full[k + 1]);
            }
        }
    }
    lemma_next_match_at(full, "::"@, 0, full.len() as int);
    assert(full.subrange(0, full.len() as int) =~= full);
    assert(halves(full) =~= seq![full]);
    lemma_split_joined(full, ':', 0, groups);
    assert(groups_before(full) == groups);
    assert(groups_after(full) =~= Seq::<Seq<char>>::empty());
    assert(ipv6_groups(full) =~= groups) by {
        assert forall|p: int| 0 <= p < 8 implies pad4(groups[p]) == groups[p] by {}
    }
}

/// The compressed and the full form of an address have the same reverse
/// zone.
pub proof fn zone_ignores_compression(address: Seq<char>)
    requires
        ipv6_reverse_zone(address) is Ok,
    ensures
        ipv6_reverse_zone(expanded_ipv6(address)->Ok_0) == ipv6_reverse_zone(address),
{
    expansion_is_stable(address);
}

/// `groups` written one after the other.
pub open spec fn run_together(groups: Seq<Seq<char>>) -> Seq<char>
    decreases groups.len(),
{
    if groups.len() == 0 {
        Seq::empty()
    } else {
        run_together(groups.drop_last()) + groups.last()
    }
}

/// Text without a colon loses nothing when its colons are taken out.
proof fn lemma_keeps_all(text: Seq<char>)
    requires
        forall|k: int| 0 <= k < text.len() ==> text[k] != ':',
    ensures
        text.filter(not_colon()) == text,
    decreases text.len(),
{
    reveal(Seq::filter);
    if text.len() > 0 {
        lemma_keeps_all(text.drop_last());
        assert(text.drop_last().push(text.last()) =~= text);
    }
}

/// Groups without colons, joined with colons and the colons taken out
/// again, are the groups run together.
proof fn lemma_colons_removed(groups: Seq<Seq<char>>)
    requires
        free_of(groups, ':'),
    ensures
        join(groups, seq![':']).filter(not_colon()) == run_together(groups),
    decreases groups.len(),
{
    reveal(Seq::filter);
    let keep = not_colon();
    if groups.len() == 0 {
    } else {
        let front = groups.drop_last();
        let last = groups.last();
        assert forall|k: int| 0 <= k < last.len() implies last[k] != ':' by {
            assert(last[k] == groups[groups.len() - 1][k]);
        }
        lemma_keeps_all(last);
        if groups.len() == 1 {
            assert(run_together(front) =~= Seq::<char>::empty());
            assert(Seq::<char>::empty() + last =~= last);
        } else {
            assert(free_of(front, ':')) by {
                assert forall|p: int, k: int|
                    0 <= p < front.len() && 0 <= k < front[p].len() implies front[p][k]
                    != ':' by {
                    assert(front[p] == groups[p]);
                }
            }
            lemma_colons_removed(front);
            let before = join(front, seq![':']);
            Seq::filter_distributes_over_add(before, seq![':'], keep);
            Seq::filter_distributes_over_add(before + seq![':'], last, keep);
            assert(seq![':'].filter(keep) =~= Seq::<char>::empty()) by {
                reveal(Seq::filter);
                assert(Seq::<char>::empty().filter(keep) =~= Seq::<char>::empty());
                assert(seq![':'].drop_last() =~= Seq::<char>::empty());
                assert(!keep(seq![':'].last()));
            }
            assert(before.filter(keep) + Seq::<char>::empty() =~= before.filter(keep));
        }
    }
}

/// Groups of four characters each, run together, have four characters for
/// each group.
proof fn lemma_four_each(groups: Seq<Seq<char>>)
    requires
        forall|p: int| 0 <= p < groups.len() ==> (#[trigger] groups[p]).len() == 4,
    ensures
        run_together(groups).len() == 4 * groups.len(),
    decreases groups.len(),
{
    if groups.len() > 0 {
        let front = groups.drop_last();
        assert forall|p: int| 0 <= p < front.len() implies (#[trigger] front[p]).len() == 4 by {
            assert(front[p] == groups[p]);
        }
        lemma_four_each(front);
    }
}

/// The digits of the reverse zone are the eight padded groups of the
/// address run together, from the last digit to the first. Where no group
/// of the address has more than four digits, they are thirty-two.
pub proof fn zone_spells_the_groups(address: Seq<char>)
    requires
        ipv6_fault(address) is None,
    ensures
        ipv6_reverse_zone(address) == Ok::<Seq<char>, AddressError>(
            join(singletons(run_together(ipv6_groups(address)).reverse()), "."@) + ".ip6.arpa"@,
        ),
        (forall|p: int|
            0 <= p < groups_before(address).len() ==> (#[trigger] groups_before(address)[p]).len()
                <= 4) && (forall|p: int|
            0 <= p < groups_after(address).len() ==> (#[trigger] groups_after(address)[p]).len()
                <= 4) ==> run_together(ipv6_groups(address)).len() == 32,
{
    reveal_strlit(":");
    reveal_strlit("0000");
    assert(":"@ =~= seq![':']);
    let groups = ipv6_groups(address);
    lemma_groups_are_full(address);
    lemma_colons_removed(groups);
    let before = groups_before(address);
    let after = groups_after(address);
    if (forall|p: int| 0 <= p < before.len() ==> (#[trigger] before[p]).len() <= 4) && (forall|
        p: int,
    | 0 <= p < after.len() ==> (#[trigger] after[p]).len() <= 4) {
        let gap = 8 - before.len() - after.len();
        assert forall|p: int| 0 <= p < groups.len() implies (#[trigger] groups[p]).len() == 4 by {
            if p < before.len() {
                assert(groups[p] == pad4(before[p]));
            } else if p < before.len() + gap {
                assert(groups[p] == "0000"@);
            } else {
                assert(groups[p] == pad4(after[p - before.len() - gap]));
            }
        }
        lemma_four_each(groups);
    }
}

} // verus!
