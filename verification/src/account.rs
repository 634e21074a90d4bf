//! The account filter: an identity allow-list plus compiled owner rules,
//! evaluated as a short-circuiting OR with an empty-filter-selects-all
//! fallback.

use vstd::prelude::*;
use vstd::slice::slice_to_vec;
use crate::base58::{base58_encode, base58_encoding};
use crate::error::FilterParseError;
use crate::owner::{owner_rule_matches, parse_owner_rule, OwnerFilter, OwnerFilterModel};
use crate::record::{AccountRecord, AccountRecordModel};
use crate::text::{bytes_eq, split_bytes, split_on, string_bytes, trim, trim_bytes, views_of};

verus! {

// --- the identity set ---

/// Insert one raw token into the identity list: empty tokens are skipped,
/// duplicates are collapsed, insertion order is kept.
pub open spec fn insert_identity(acc: Seq<Seq<u8>>, t: Seq<u8>) -> Seq<Seq<u8>> {
    if t.len() == 0 {
        acc
    } else if acc.contains(t) {
        acc
    } else {
        acc.push(t)
    }
}

/// Insert every comma-separated token of one `--pubkey` argument, verbatim.
pub open spec fn insert_tokens(acc: Seq<Seq<u8>>, toks: Seq<Seq<u8>>) -> Seq<Seq<u8>>
    decreases toks.len(),
{
    if toks.len() == 0 {
        acc
    } else {
        insert_tokens(insert_identity(acc, toks[0]), toks.skip(1))
    }
}

pub open spec fn insert_args(acc: Seq<Seq<u8>>, args: Seq<Seq<u8>>) -> Seq<Seq<u8>>
    decreases args.len(),
{
    if args.len() == 0 {
        acc
    } else {
        insert_args(insert_tokens(acc, split_bytes(args[0], 44)), args.skip(1))
    }
}

/// Insert every line of a pubkey file, trimmed of surrounding whitespace;
/// blank lines are skipped.
pub open spec fn insert_lines(acc: Seq<Seq<u8>>, lines: Seq<Seq<u8>>) -> Seq<Seq<u8>>
    decreases lines.len(),
{
    if lines.len() == 0 {
        acc
    } else {
        insert_lines(insert_identity(acc, trim_bytes(lines[0])), lines.skip(1))
    }
}

/// The identity set that the `--pubkey` arguments and the optional pubkey
/// file contents build, as a duplicate-free list in insertion order.
pub open spec fn spec_pubkey_filters(pubkeys: Seq<Seq<u8>>, file: Option<Seq<u8>>) -> Seq<Seq<u8>> {
    let base = insert_args(Seq::empty(), pubkeys);
    match file {
        Option::None => base,
        Option::Some(content) => insert_lines(base, split_bytes(content, 10)),
    }
}

// --- rule list compilation ---

pub open spec fn rules_view(v: Seq<OwnerFilter>) -> Seq<OwnerFilterModel> {
    v.map_values(|f: OwnerFilter| f@)
}

/// Compile every owner rule text, left to right, first error aborting.
pub open spec fn fold_rules(owners: Seq<Seq<u8>>, acc: Seq<OwnerFilterModel>) -> Result<
    Seq<OwnerFilterModel>,
    FilterParseError,
>
    decreases owners.len(),
{
    if owners.len() == 0 {
        Ok(acc)
    } else {
        match parse_owner_rule(owners[0]) {
            Err(e) => Err(e),
            Ok(f) => fold_rules(owners.skip(1), acc.push(f)),
        }
    }
}

/// Ghost image of an [`AccountFilter`].
pub struct AccountFilterModel {
    pub pubkey_filters: Seq<Seq<u8>>,
    pub owner_filters: Seq<OwnerFilterModel>,
}

/// The filter the three inputs build, or the first error: the identity set
/// from the `--pubkey` arguments and the file contents, and the compiled
/// owner rules in argument order.
pub open spec fn build_account_filter(
    pubkeys: Seq<Seq<u8>>,
    file: Option<Seq<u8>>,
    owners: Seq<Seq<u8>>,
) -> Result<AccountFilterModel, FilterParseError> {
    match fold_rules(owners, Seq::empty()) {
        Err(e) => Err(e),
        Ok(rules) => Ok(
            AccountFilterModel {
                pubkey_filters: spec_pubkey_filters(pubkeys, file),
                owner_filters: rules,
            },
        ),
    }
}

/// Whether the filter selects a record: everything when no filter is
/// configured; else the record's base58-rendered pubkey is in the identity
/// set, or some owner rule matches.
pub open spec fn account_filter_matches(f: AccountFilterModel, a: AccountRecordModel) -> bool {
    ||| (f.pubkey_filters.len() == 0 && f.owner_filters.len() == 0)
    ||| f.pubkey_filters.contains(base58_encoding(a.pubkey))
    ||| exists|i: int| 0 <= i < f.owner_filters.len() && owner_rule_matches(f.owner_filters[i], a)
}

/// The compiled filter: the identity allow-list (raw strings, compared
/// textually) and the owner rules. Built once, immutable thereafter.
#[derive(Debug)]
pub struct AccountFilter {
    pubkey_filters: Vec<Vec<u8>>,
    owner_filters: Vec<OwnerFilter>,
}

impl View for AccountFilter {
    type V = AccountFilterModel;

    closed spec fn view(&self) -> AccountFilterModel {
        AccountFilterModel {
            pubkey_filters: views_of(self.pubkey_filters@),
            owner_filters: rules_view(self.owner_filters@),
        }
    }
}

/// Insert one raw token, skipping empties and duplicates.
fn insert_identity_exec(ids: &mut Vec<Vec<u8>>, tok: &[u8])
    ensures
        views_of(final(ids)@) == insert_identity(views_of(old(ids)@), tok@),
{
    if tok.len() == 0 {
        return ;
    }
    let mut j: usize = 0;
    while j < ids.len()
        invariant
            0 <= j <= ids@.len(),
            forall|k: int| 0 <= k < j ==> views_of(ids@)[k] != tok@,
        decreases ids@.len() - j,
    {
        if bytes_eq(ids[j].as_slice(), tok) {
            proof {
                assert(views_of(ids@)[j as int] == tok@);
                assert(views_of(ids@).contains(tok@));
            }
            return ;
        }
        j = j + 1;
    }
    proof {
        assert(forall|k: int| 0 <= k < views_of(ids@).len() ==> views_of(ids@)[k] != tok@);
        assert(!views_of(ids@).contains(tok@));
    }
    let ghost pre = views_of(ids@);
    ids.push(slice_to_vec(tok));
    proof {
        assert(views_of(ids@) =~= pre.push(tok@));
    }
}

impl AccountFilter {
    /// Build a filter from the raw `--pubkey` arguments (each possibly a
    /// comma-separated list), the contents of the pubkey file if one was
    /// given, and the owner rule texts. The first rule error aborts.
    pub fn new(pubkeys: &Vec<String>, pubkeyfile: &Option<String>, owners: &Vec<String>) -> (r:
        Result<AccountFilter, FilterParseError>)
        ensures
            ({
                let pk = pubkeys@.map_values(|s: String| string_bytes(s@));
                let fc = match pubkeyfile {
                    Option::None => Option::None,
                    Option::Some(c) => Option::Some(string_bytes(c@)),
                };
                let ow = owners@.map_values(|s: String| string_bytes(s@));
                match r {
                    Ok(f) => build_account_filter(pk, fc, ow) == Ok::<_, FilterParseError>(f@),
                    Err(e) => build_account_filter(pk, fc, ow) == Err::<AccountFilterModel, _>(e),
                }
            }),
    {
        let ghost pk = pubkeys@.map_values(|s: String| string_bytes(s@));
        let ghost fc = match pubkeyfile {
            Option::None => Option::None,
            Option::Some(c) => Option::Some(string_bytes(c@)),
        };
        let ghost ow = owners@.map_values(|s: String| string_bytes(s@));

        let mut ids: Vec<Vec<u8>> = Vec::new();
        proof {
            assert(views_of(ids@) =~= Seq::<Seq<u8>>::empty());
        }
        let mut i: usize = 0;
        proof {
            assert(pk.skip(0) =~= pk);
        }
        while i < pubkeys.len()
            invariant
                0 <= i <= pubkeys@.len(),
                pk == pubkeys@.map_values(|s: String| string_bytes(s@)),
                pk.len() == pubkeys@.len(),
                insert_args(Seq::empty(), pk) == insert_args(views_of(ids@), pk.skip(i as int)),
            decreases pubkeys@.len() - i,
        {
            let arg: &String = &pubkeys[i];
            let toks: Vec<Vec<u8>> = split_on(arg.as_str().as_bytes(), 44);
            let ghost tv = views_of(toks@);
            proof {
                assert(pk.skip(i as int)[0] == pk[i as int]);
                assert(pk[i as int] == string_bytes(pubkeys@[i as int]@));
                assert(tv == split_bytes(pk[i as int], 44));
            }
            let ghost ids_entry = views_of(ids@);
            let mut j: usize = 0;
            proof {
                assert(tv.skip(0) =~= tv);
            }
            while j < toks.len()
                invariant
                    0 <= j <= toks@.len(),
                    tv == views_of(toks@),
                    tv.len() == toks@.len(),
                    insert_tokens(ids_entry, tv) == insert_tokens(
                        views_of(ids@),
                        tv.skip(j as int),
                    ),
                decreases toks@.len() - j,
            {
                proof {
                    assert(tv.skip(j as int)[0] == tv[j as int]);
                    assert(tv[j as int] == toks@[j as int]@);
                }
                insert_identity_exec(&mut ids, toks[j].as_slice());
                proof {
                    assert(tv.skip(j as int).skip(1) =~= tv.skip(j as int + 1));
                }
                j = j + 1;
            }
            proof {
                assert(tv.skip(j as int) =~= Seq::<Seq<u8>>::empty());
                assert(pk.skip(i as int).skip(1) =~= pk.skip(i as int + 1));
            }
            i = i + 1;
        }
        proof {
            assert(pk.skip(i as int) =~= Seq::<Seq<u8>>::empty());
            assert(insert_args(Seq::empty(), pk) == views_of(ids@));
        }

        match pubkeyfile {
            None => {},
            Some(content) => {
                let lines: Vec<Vec<u8>> = split_on(content.as_str().as_bytes(), 10);
                let ghost lv = views_of(lines@);
                let ghost ids_entry = views_of(ids@);
                proof {
                    assert(lv == split_bytes(string_bytes(content@), 10));
                }
                let mut j: usize = 0;
                proof {
                    assert(lv.skip(0) =~= lv);
                }
                while j < lines.len()
                    invariant
                        0 <= j <= lines@.len(),
                        lv == views_of(lines@),
                        lv.len() == lines@.len(),
                        ids_entry == insert_args(Seq::empty(), pk),
                        fc == Option::Some(string_bytes(content@)),
                        lv == split_bytes(string_bytes(content@), 10),
                        insert_lines(ids_entry, lv) == insert_lines(
                            views_of(ids@),
                            lv.skip(j as int),
                        ),
                    decreases lines@.len() - j,
                {
                    proof {
                        assert(lv.skip(j as int)[0] == lv[j as int]);
                        assert(lv[j as int] == lines@[j as int]@);
                    }
                    let tok = trim(lines[j].as_slice());
                    insert_identity_exec(&mut ids, tok);
                    proof {
                        assert(lv.skip(j as int).skip(1) =~= lv.skip(j as int + 1));
                    }
                    j = j + 1;
                }
                proof {
                    assert(lv.skip(j as int) =~= Seq::<Seq<u8>>::empty());
                }
            },
        }
        proof {
            assert(views_of(ids@) == spec_pubkey_filters(pk, fc));
        }
        let ghost final_ids = views_of(ids@);

        let mut rules: Vec<OwnerFilter> = Vec::new();
        proof {
            assert(rules_view(rules@) =~= Seq::<OwnerFilterModel>::empty());
        }
        let mut i2: usize = 0;
        proof {
            assert(ow.skip(0) =~= ow);
        }
        while i2 < owners.len()
            invariant
                0 <= i2 <= owners@.len(),
                ow == owners@.map_values(|s: String| string_bytes(s@)),
                ow.len() == owners@.len(),
                final_ids == views_of(ids@),
                final_ids == spec_pubkey_filters(pk, fc),
                fold_rules(ow, Seq::empty()) == fold_rules(
                    ow.skip(i2 as int),
                    rules_view(rules@),
                ),
            decreases owners@.len() - i2,
        {
            proof {
                assert(ow.skip(i2 as int)[0] == ow[i2 as int]);
                assert(ow[i2 as int] == string_bytes(owners@[i2 as int]@));
            }
            let ghost rules_pre = rules_view(rules@);
            match OwnerFilter::new(&owners[i2]) {
                Err(e) => {
                    proof {
                        assert(fold_rules(ow.skip(i2 as int), rules_pre) == Err::<
                            Seq<OwnerFilterModel>,
                            FilterParseError,
                        >(e));
                    }
                    return Err(e);
                },
                Ok(f) => {
                    rules.push(f);
                    proof {
                        assert(rules_view(rules@) =~= rules_pre.push(f@));
                        assert(ow.skip(i2 as int).skip(1) =~= ow.skip(i2 as int + 1));
                    }
                },
            }
            i2 = i2 + 1;
        }
        proof {
            assert(ow.skip(i2 as int) =~= Seq::<Seq<u8>>::empty());
        }
        Ok(AccountFilter { pubkey_filters: ids, owner_filters: rules })
    }

    /// How many distinct identities the allow-list holds.
    pub fn identity_count(&self) -> (r: usize)
        ensures
            r == self@.pubkey_filters.len(),
    {
        self.pubkey_filters.len()
    }

    /// Whether the allow-list holds exactly this identity string.
    pub fn contains_identity(&self, id: &str) -> (r: bool)
        ensures
            r == self@.pubkey_filters.contains(string_bytes(id@)),
    {
        let idb: &[u8] = id.as_bytes();
        let mut j: usize = 0;
        while j < self.pubkey_filters.len()
            invariant
                0 <= j <= self.pubkey_filters@.len(),
                idb@ == string_bytes(id@),
                forall|k: int| 0 <= k < j ==> self@.pubkey_filters[k] != idb@,
            decreases self.pubkey_filters@.len() - j,
        {
            if bytes_eq(self.pubkey_filters[j].as_slice(), idb) {
                proof {
                    assert(self@.pubkey_filters[j as int] == idb@);
                    assert(self@.pubkey_filters.contains(idb@));
                }
                return true;
            }
            j = j + 1;
        }
        false
    }

    /// How many owner rules the filter holds.
    pub fn owner_rule_count(&self) -> (r: usize)
        ensures
            r == self@.owner_filters.len(),
    {
        self.owner_filters.len()
    }

    /// Whether the filter selects the record: everything when no filter is
    /// configured; else by identity-set membership of the base58-rendered
    /// pubkey, or by the first matching owner rule.
    pub fn is_match(&self, account: &AccountRecord) -> (r: bool)
        ensures
            r == account_filter_matches(self@, account@),
    {
        if self.pubkey_filters.len() == 0 && self.owner_filters.len() == 0 {
            return true;
        }
        let key: Vec<u8> = base58_encode(account.pubkey.as_slice());
        let mut j: usize = 0;
        while j < self.pubkey_filters.len()
            invariant
                0 <= j <= self.pubkey_filters@.len(),
                key@ == base58_encoding(account@.pubkey),
                forall|k: int| 0 <= k < j ==> self@.pubkey_filters[k] != key@,
            decreases self.pubkey_filters@.len() - j,
        {
            if bytes_eq(self.pubkey_filters[j].as_slice(), key.as_slice()) {
                proof {
                    assert(self@.pubkey_filters[j as int] == key@);
                    assert(self@.pubkey_filters.contains(key@));
                }
                return true;
            }
            j = j + 1;
        }
        let mut m: usize = 0;
        while m < self.owner_filters.len()
            invariant
                0 <= m <= self.owner_filters@.len(),
                !(self@.pubkey_filters.len() == 0 && self@.owner_filters.len() == 0),
                !self@.pubkey_filters.contains(base58_encoding(account@.pubkey)),
                forall|k: int| 0 <= k < m ==> !owner_rule_matches(self@.owner_filters[k], account@),
            decreases self.owner_filters@.len() - m,
        {
            if self.owner_filters[m].is_match(account) {
                proof {
                    assert(owner_rule_matches(self@.owner_filters[m as int], account@));
                }
                return true;
            }
            m = m + 1;
        }
        false
    }
}

// --- laws ---

/// No two entries of `s` are equal.
pub open spec fn distinct_seqs(s: Seq<Seq<u8>>) -> bool {
    forall|i: int, j: int| 0 <= i < j < s.len() ==> s[i] != s[j]
}

proof fn lemma_insert_identity_distinct(acc: Seq<Seq<u8>>, t: Seq<u8>)
    requires
        distinct_seqs(acc),
    ensures
        distinct_seqs(insert_identity(acc, t)),
{
    if t.len() > 0 && !acc.contains(t) {
        let r = acc.push(t);
        assert forall|i: int, j: int| 0 <= i < j < r.len() implies r[i] != r[j] by {
            if j == acc.len() {
                assert(r[i] == acc[i]);
                assert(!acc.contains(t));
                assert(acc[i] != t);
            }
        }
    }
}

proof fn lemma_insert_tokens_distinct(acc: Seq<Seq<u8>>, toks: Seq<Seq<u8>>)
    requires
        distinct_seqs(acc),
    ensures
        distinct_seqs(insert_tokens(acc, toks)),
    decreases toks.len(),
{
    if toks.len() > 0 {
        lemma_insert_identity_distinct(acc, toks[0]);
        lemma_insert_tokens_distinct(insert_identity(acc, toks[0]), toks.skip(1));
    }
}

proof fn lemma_insert_args_distinct(acc: Seq<Seq<u8>>, args: Seq<Seq<u8>>)
    requires
        distinct_seqs(acc),
    ensures
        distinct_seqs(insert_args(acc, args)),
    decreases args.len(),
{
    if args.len() > 0 {
        lemma_insert_tokens_distinct(acc, split_bytes(args[0], 44));
        lemma_insert_args_distinct(insert_tokens(acc, split_bytes(args[0], 44)), args.skip(1));
    }
}

proof fn lemma_insert_lines_distinct(acc: Seq<Seq<u8>>, lines: Seq<Seq<u8>>)
    requires
        distinct_seqs(acc),
    ensures
        distinct_seqs(insert_lines(acc, lines)),
    decreases lines.len(),
{
    if lines.len() > 0 {
        lemma_insert_identity_distinct(acc, trim_bytes(lines[0]));
        lemma_insert_lines_distinct(insert_identity(acc, trim_bytes(lines[0])), lines.skip(1));
    }
}

/// The identity set collapses duplicates: whatever the `--pubkey` arguments
/// and the file contents hold, no identity string appears twice, so its
/// length counts distinct identities.
pub proof fn lemma_identity_set_distinct(pubkeys: Seq<Seq<u8>>, file: Option<Seq<u8>>)
    ensures
        distinct_seqs(spec_pubkey_filters(pubkeys, file)),
{
    lemma_insert_args_distinct(Seq::empty(), pubkeys);
    match file {
        Option::None => {},
        Option::Some(content) => {
            lemma_insert_lines_distinct(
                insert_args(Seq::empty(), pubkeys),
                split_bytes(content, 10),
            );
        },
    }
}

/// A filter built with an empty identity list and an empty owner-rule list
/// matches every record.
pub proof fn lemma_empty_filter_matches_all(f: AccountFilterModel, a: AccountRecordModel)
    requires
        f.pubkey_filters.len() == 0,
        f.owner_filters.len() == 0,
    ensures
        account_filter_matches(f, a),
{
}

/// Matching is idempotent: it reads the filter and the record alone, so the
/// same filter and the same record always give the same answer.
pub proof fn lemma_is_match_idempotent(
    f1: AccountFilterModel,
    f2: AccountFilterModel,
    a1: AccountRecordModel,
    a2: AccountRecordModel,
)
    requires
        f1 == f2,
        a1 == a2,
    ensures
        account_filter_matches(f1, a1) == account_filter_matches(f2, a2),
{
}

} // verus!
