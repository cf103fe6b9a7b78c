//! How good the target wallets are.
use crate::binary64::Binary64;
use crate::config::WalletScoring;
use crate::error::joined;
use crate::keyed::Keyed;
use vstd::prelude::*;

verus! {

/// What is known of a wallet.
#[derive(Clone, Copy, PartialEq, Eq, Structural, Debug)]
pub struct WalletScoreEntry {
    pub score: Binary64,
    pub trades: u32,
    pub total_pnl_sol: Binary64,
}

/// The names in a list of parts: those that are more than white space, without the white space
/// around them.
pub open spec fn names_among(parts: Seq<Seq<char>>) -> Seq<Seq<char>>
    decreases parts.len(),
{
    if parts.len() == 0 {
        Seq::empty()
    } else {
        let before = names_among(parts.drop_last());
        let name = crate::text::spec_trim(parts.last());
        if name.len() > 0 {
            before.push(name)
        } else {
            before
        }
    }
}

/// The wallets that a comma-separated list names.
pub open spec fn wallet_names(list: Seq<char>) -> Seq<Seq<char>> {
    names_among(crate::text::split_on(list, ','))
}

/// Reads a comma-separated list of wallets.
pub fn parse_wallet_list(list: &str) -> (r: Vec<String>)
    ensures
        crate::text::texts(r@) == wallet_names(list@),
{
    let parts: Vec<String> = crate::text::split(list, ',');
    let ghost all = crate::text::texts(parts@);
    let mut out: Vec<String> = Vec::new();
    let mut i: usize = 0;
    while i < parts.len()
        invariant
            i <= parts@.len(),
            all == crate::text::texts(parts@),
            crate::text::texts(out@) =~= names_among(all.take(i as int)),
        decreases parts@.len() - i,
    {
        assert(all.take(i + 1).drop_last() =~= all.take(i as int));
        let ghost before = crate::text::texts(out@);
        let name: String = crate::text::trim(parts[i].as_str());
        if !name.as_str().is_empty() {
            out.push(name);
            assert(crate::text::texts(out@) =~= before.push(name@));
        }
        i = i + 1;
    }
    assert(all.take(all.len() as int) =~= all);
    out
}

/// A wallet of which nothing is known yet.
pub open spec fn unknown_wallet(initial_score: Binary64) -> WalletScoreEntry {
    WalletScoreEntry { score: initial_score, trades: 0, total_pnl_sol: Binary64::from_u64(0) }
}

/// The scores with those of further wallets; wallets that have a score keep it.
pub open spec fn with_wallets(
    scores: Map<Seq<char>, WalletScoreEntry>,
    wallets: Seq<Seq<char>>,
    initial_score: Binary64,
) -> Map<Seq<char>, WalletScoreEntry>
    decreases wallets.len(),
{
    if wallets.len() == 0 {
        scores
    } else {
        let before = with_wallets(scores, wallets.drop_last(), initial_score);
        if before.dom().contains(wallets.last()) {
            before
        } else {
            before.insert(wallets.last(), unknown_wallet(initial_score))
        }
    }
}

/// The score of a wallet, or what a wallet starts with.
pub open spec fn entry_or_new(
    scores: Map<Seq<char>, WalletScoreEntry>,
    wallet: Seq<char>,
    initial_score: Binary64,
) -> WalletScoreEntry {
    if scores.dom().contains(wallet) {
        scores[wallet]
    } else {
        unknown_wallet(initial_score)
    }
}

/// A score after a trade: it moves by the result times the sensitivity, within its range.
pub open spec fn scored(e: WalletScoreEntry, pnl_sol: Binary64, c: WalletScoring) -> WalletScoreEntry {
    WalletScoreEntry {
        score: e.score.plus(pnl_sol.times(c.sensitivity)).clamped(c.min_score, c.max_score),
        trades: (e.trades + 1) as u32,
        total_pnl_sol: e.total_pnl_sol.plus(pnl_sol),
    }
}

/// Whether a wallet is to be dropped: its score has fallen to the removal score, and it has made
/// enough trades for its score to count.
pub open spec fn removal_due(
    scores: Map<Seq<char>, WalletScoreEntry>,
    wallet: Seq<char>,
    c: WalletScoring,
) -> bool {
    &&& Binary64::from_u64(0).lt(c.wallet_removal_score)
    &&& scores.dom().contains(wallet)
    &&& scores[wallet].score.le(c.wallet_removal_score)
    &&& scores[wallet].trades >= c.min_trades_for_scoring
}

/// Keeps the scores of wallets.
pub struct WalletScorer {
    scores: Keyed<WalletScoreEntry>,
}

impl View for WalletScorer {
    type V = Map<Seq<char>, WalletScoreEntry>;

    closed spec fn view(&self) -> Map<Seq<char>, WalletScoreEntry> {
        self.scores@
    }
}

impl WalletScorer {
    /// The scores that an earlier run left, with those of the wallets of a list.
    pub fn load(left: Keyed<WalletScoreEntry>, list: &str, initial_score: Binary64) -> (r: Self)
        ensures
            r@ == with_wallets(left@, wallet_names(list@), initial_score),
    {
        let wallets: Vec<String> = parse_wallet_list(list);
        let ghost all = crate::text::texts(wallets@);
        let ghost start = left@;
        let mut scores: Keyed<WalletScoreEntry> = left;
        let mut i: usize = 0;
        while i < wallets.len()
            invariant
                i <= wallets@.len(),
                all == crate::text::texts(wallets@),
                scores@ == with_wallets(start, all.take(i as int), initial_score),
            decreases wallets@.len() - i,
        {
            assert(all.take(i + 1).drop_last() =~= all.take(i as int));
            assert(all.take(i + 1).last() == wallets@[i as int]@);
            if !scores.contains_key(wallets[i].as_str()) {
                scores.insert(
                    wallets[i].clone(),
                    WalletScoreEntry {
                        score: initial_score,
                        trades: 0,
                        total_pnl_sol: Binary64::from_u64(0),
                    },
                );
            }
            i = i + 1;
        }
        assert(all.take(all.len() as int) =~= all);
        WalletScorer { scores }
    }

    /// The scores, for safekeeping.
    pub fn save(&self) -> (r: &Keyed<WalletScoreEntry>)
        ensures
            r@ == self@,
    {
        &self.scores
    }

    pub fn get_score(&self, wallet: &str) -> (r: Option<Binary64>)
        ensures
            r == (if self@.dom().contains(wallet@) {
                Some(self@[wallet@].score)
            } else {
                None
            }),
    {
        match self.scores.get(wallet) {
            Some(entry) => Some(entry.score),
            None => None,
        }
    }

    /// Takes the result of a trade into the score of a wallet.
    pub fn update(&mut self, wallet: &str, pnl_sol: Binary64, config: &WalletScoring)
        requires
            config.min_score.le(config.max_score),
            entry_or_new(old(self)@, wallet@, config.initial_score).trades < u32::MAX,
        ensures
            final(self)@ == old(self)@.insert(
                wallet@,
                scored(
                    entry_or_new(old(self)@, wallet@, config.initial_score),
                    pnl_sol,
                    *config,
                ),
            ),
    {
        let entry: WalletScoreEntry = match self.scores.get(wallet) {
            Some(entry) => *entry,
            None => WalletScoreEntry {
                score: config.initial_score,
                trades: 0,
                total_pnl_sol: Binary64::from_u64(0),
            },
        };
        let updated = WalletScoreEntry {
            score: entry.score.plus(pnl_sol.times(config.sensitivity)).clamped(
                config.min_score,
                config.max_score,
            ),
            trades: entry.trades + 1,
            total_pnl_sol: entry.total_pnl_sol.plus(pnl_sol),
        };
        self.scores.insert(wallet.to_owned(), updated);
    }

    /// How many trades a wallet's score is made of.
    pub fn get_trades(&self, wallet: &str) -> (r: u32)
        ensures
            r == (if self@.dom().contains(wallet@) {
                self@[wallet@].trades
            } else {
                0
            }),
    {
        match self.scores.get(wallet) {
            Some(entry) => entry.trades,
            None => 0,
        }
    }

    /// Whether a wallet is to be dropped.
    pub fn should_remove(&self, wallet: &str, config: &WalletScoring) -> (r: bool)
        ensures
            r == removal_due(self@, wallet@, *config),
    {
        if !Binary64::from_u64(0).lt(config.wallet_removal_score) {
            return false;
        }
        match self.scores.get(wallet) {
            Some(entry) => entry.score.le(config.wallet_removal_score) && entry.trades
                >= config.min_trades_for_scoring,
            None => false,
        }
    }
}

/// The parts that name another wallet.
pub open spec fn kept_parts(parts: Seq<Seq<char>>, wallet: Seq<char>) -> Seq<Seq<char>>
    decreases parts.len(),
{
    if parts.len() == 0 {
        Seq::empty()
    } else {
        let before = kept_parts(parts.drop_last(), wallet);
        let name = crate::text::spec_trim(parts.last());
        if name != wallet && name.len() > 0 {
            before.push(parts.last())
        } else {
            before
        }
    }
}

/// A list of wallets without one of them.
pub open spec fn without_wallet(list: Seq<char>, wallet: Seq<char>) -> Seq<char> {
    crate::text::join_with(kept_parts(crate::text::split_on(list, ','), wallet), ","@)
}

/// A line of the environment file without a target wallet.
pub open spec fn edited_line(line: Seq<char>, wallet: Seq<char>) -> Seq<char> {
    let prefix = "TARGET_WALLETS="@;
    if crate::text::has_prefix(line, prefix) {
        prefix + without_wallet(line.skip(prefix.len() as int), wallet)
    } else {
        line
    }
}

/// An environment file without a target wallet.
pub open spec fn edited_file(content: Seq<char>, wallet: Seq<char>) -> Seq<char> {
    crate::text::join_with(
        crate::text::text_lines(content).map_values(|line: Seq<char>| edited_line(line, wallet)),
        "\n"@,
    )
}

fn drop_wallet(list: &str, wallet: &str) -> (r: String)
    ensures
        r@ == without_wallet(list@, wallet@),
{
    let parts: Vec<String> = crate::text::split(list, ',');
    let ghost all = crate::text::texts(parts@);
    let mut kept: Vec<String> = Vec::new();
    let mut i: usize = 0;
    while i < parts.len()
        invariant
            i <= parts@.len(),
            all == crate::text::texts(parts@),
            crate::text::texts(kept@) =~= kept_parts(all.take(i as int), wallet@),
        decreases parts@.len() - i,
    {
        assert(all.take(i + 1).drop_last() =~= all.take(i as int));
        let ghost before = crate::text::texts(kept@);
        let name: String = crate::text::trim(parts[i].as_str());
        if !crate::text::same_text(name.as_str(), wallet) && !name.as_str().is_empty() {
            kept.push(parts[i].clone());
            assert(crate::text::texts(kept@) =~= before.push(all[i as int]));
        }
        i = i + 1;
    }
    assert(all.take(all.len() as int) =~= all);
    crate::text::join(&kept, ",")
}

/// An environment file without a target wallet.
pub fn remove_wallet(content: &str, wallet: &str) -> (r: String)
    ensures
        r@ == edited_file(content@, wallet@),
{
    let lines: Vec<String> = crate::text::lines(content);
    let ghost all = crate::text::texts(lines@);
    let ghost edit = |line: Seq<char>| edited_line(line, wallet@);
    let mut out: Vec<String> = Vec::new();
    let mut i: usize = 0;
    while i < lines.len()
        invariant
            i <= lines@.len(),
            all == crate::text::texts(lines@),
            edit == (|line: Seq<char>| edited_line(line, wallet@)),
            crate::text::texts(out@) =~= all.take(i as int).map_values(edit),
        decreases lines@.len() - i,
    {
        let ghost before = crate::text::texts(out@);
        let line: &str = lines[i].as_str();
        if crate::text::starts_with(line, "TARGET_WALLETS=") {
            let list: String = crate::text::skip_chars(line, "TARGET_WALLETS=".unicode_len());
            let rest: String = drop_wallet(list.as_str(), wallet);
            out.push(joined("TARGET_WALLETS=", rest.as_str()));
        } else {
            out.push(lines[i].clone());
        }
        assert(crate::text::texts(out@) =~= before.push(edited_line(all[i as int], wallet@)));
        i = i + 1;
    }
    assert(all.take(all.len() as int) =~= all);
    crate::text::join(&out, "\n")
}

/// A score stays within its range.
pub proof fn law_scores_stay_in_range(e: WalletScoreEntry, pnl_sol: Binary64, c: WalletScoring)
    requires
        c.min_score.le(c.max_score),
        !e.score.plus(pnl_sol.times(c.sensitivity)).is_nan(),
    ensures
        c.min_score.le(scored(e, pnl_sol, c).score),
        scored(e, pnl_sol, c).score.le(c.max_score),
{
}

/// A wallet is not dropped before it has made enough trades, and never where removal is switched
/// off by a removal score of zero.
pub proof fn law_removal_needs_trades(
    scores: Map<Seq<char>, WalletScoreEntry>,
    wallet: Seq<char>,
    c: WalletScoring,
)
    ensures
        scores.dom().contains(wallet) && scores[wallet].trades < c.min_trades_for_scoring
            ==> !removal_due(scores, wallet, c),
        c.wallet_removal_score == Binary64::from_u64(0) ==> !removal_due(scores, wallet, c),
{
}

/// Wallets that have a score keep it when a list is loaded.
pub proof fn law_known_scores_are_kept(
    scores: Map<Seq<char>, WalletScoreEntry>,
    wallets: Seq<Seq<char>>,
    initial_score: Binary64,
    wallet: Seq<char>,
)
    ensures
        scores.dom().contains(wallet) ==> with_wallets(scores, wallets, initial_score).dom().contains(
            wallet,
        ) && with_wallets(scores, wallets, initial_score)[wallet] == scores[wallet],
        wallets.contains(wallet) ==> with_wallets(scores, wallets, initial_score).dom().contains(
            wallet,
        ),
    decreases wallets.len(),
{
    if wallets.len() > 0 {
        let front = wallets.drop_last();
        law_known_scores_are_kept(scores, front, initial_score, wallet);
        if wallets.contains(wallet) && wallet != wallets.last() {
            let i = choose|i: int| 0 <= i < wallets.len() && wallets[i] == wallet;
            assert(front[i] == wallet);
        }
    }
}

/// The names without one of them.
pub open spec fn names_without(names: Seq<Seq<char>>, wallet: Seq<char>) -> Seq<Seq<char>>
    decreases names.len(),
{
    if names.len() == 0 {
        Seq::empty()
    } else if names.last() == wallet {
        names_without(names.drop_last(), wallet)
    } else {
        names_without(names.drop_last(), wallet).push(names.last())
    }
}

proof fn lemma_kept_names(parts: Seq<Seq<char>>, wallet: Seq<char>)
    ensures
        names_among(kept_parts(parts, wallet)) == names_without(names_among(parts), wallet),
    decreases parts.len(),
{
    if parts.len() > 0 {
        let front = parts.drop_last();
        lemma_kept_names(front, wallet);
        let name = crate::text::spec_trim(parts.last());
        let kept = kept_parts(front, wallet);
        assert(kept.push(parts.last()).drop_last() =~= kept);
        assert(names_among(front).push(name).drop_last() =~= names_among(front));
    }
}

proof fn lemma_split_clean(s: Seq<char>, separator: char)
    ensures
        crate::text::split_on(s, separator).len() > 0,
        forall|i: int|
            0 <= i < crate::text::split_on(s, separator).len() ==> !(
            #[trigger] crate::text::split_on(s, separator)[i]).contains(separator),
    decreases s.len(),
{
    let parts = crate::text::split_on(s, separator);
    if s.len() == 0 {
        assert(parts[0] =~= Seq::<char>::empty());
    } else {
        lemma_split_clean(s.drop_last(), separator);
        let before = crate::text::split_on(s.drop_last(), separator);
        assert forall|i: int| 0 <= i < parts.len() implies !(#[trigger] parts[i]).contains(
            separator,
        ) by {
            if s.last() == separator {
                if i < before.len() {
                    assert(parts[i] == before[i]);
                }
            } else if i < before.len() - 1 {
                assert(parts[i] == before[i]);
            } else {
                let last = before[before.len() - 1];
                assert(parts[i] == last.push(s.last()));
                if parts[i].contains(separator) {
                    let k = choose|k: int| 0 <= k < parts[i].len() && parts[i][k] == separator;
                    assert(last[k] == separator);
                }
            }
        }
    }
}

proof fn lemma_split_behind(a: Seq<char>, b: Seq<char>, separator: char)
    requires
        !b.contains(separator),
    ensures
        crate::text::split_on(a + seq![separator] + b, separator) == crate::text::split_on(
            a,
            separator,
        ).push(b),
    decreases b.len(),
{
    let s = a + seq![separator] + b;
    if b.len() == 0 {
        assert(s.drop_last() =~= a);
        assert(b =~= Seq::<char>::empty());
    } else {
        let c = b.drop_last();
        assert forall|k: int| 0 <= k < c.len() implies c[k] != separator by {
            assert(b[k] == c[k]);
        }
        lemma_split_behind(a, c, separator);
        assert(s.drop_last() =~= a + seq![separator] + c);
        assert(b[b.len() - 1] != separator);
        let parts = crate::text::split_on(a, separator);
        assert(parts.push(c).drop_last() =~= parts);
        assert(c.push(b.last()) =~= b);
    }
}

proof fn lemma_split_plain(s: Seq<char>, separator: char)
    requires
        !s.contains(separator),
    ensures
        crate::text::split_on(s, separator) == seq![s],
    decreases s.len(),
{
    if s.len() > 0 {
        let c = s.drop_last();
        assert forall|k: int| 0 <= k < c.len() implies c[k] != separator by {
            assert(s[k] == c[k]);
        }
        lemma_split_plain(c, separator);
        assert(s[s.len() - 1] != separator);
        assert(c.push(s.last()) =~= s);
        assert(seq![c].drop_last().push(s) =~= seq![s]);
    } else {
        assert(s =~= Seq::<char>::empty());
    }
}

proof fn lemma_split_joined(parts: Seq<Seq<char>>, separator: char)
    requires
        parts.len() > 0,
        forall|i: int| 0 <= i < parts.len() ==> !(#[trigger] parts[i]).contains(separator),
    ensures
        crate::text::split_on(crate::text::join_with(parts, seq![separator]), separator) == parts,
    decreases parts.len(),
{
    if parts.len() == 1 {
        lemma_split_plain(parts[0], separator);
        assert(parts =~= seq![parts[0]]);
    } else {
        let front = parts.drop_last();
        assert forall|i: int| 0 <= i < front.len() implies !(#[trigger] front[i]).contains(
            separator,
        ) by {
            assert(front[i] == parts[i]);
        }
        lemma_split_joined(front, separator);
        let last = parts[parts.len() - 1];
        lemma_split_behind(crate::text::join_with(front, seq![separator]), last, separator);
        assert(front.push(last) =~= parts);
    }
}

proof fn lemma_kept_clean(parts: Seq<Seq<char>>, wallet: Seq<char>, separator: char)
    requires
        forall|i: int| 0 <= i < parts.len() ==> !(#[trigger] parts[i]).contains(separator),
    ensures
        forall|i: int|
            0 <= i < kept_parts(parts, wallet).len() ==> !(
            #[trigger] kept_parts(parts, wallet)[i]).contains(separator),
    decreases parts.len(),
{
    if parts.len() > 0 {
        let front = parts.drop_last();
        assert forall|i: int| 0 <= i < front.len() implies !(#[trigger] front[i]).contains(
            separator,
        ) by {
            assert(front[i] == parts[i]);
        }
        lemma_kept_clean(front, wallet, separator);
        assert(!parts[parts.len() - 1].contains(separator));
        let kept = kept_parts(parts, wallet);
        let before = kept_parts(front, wallet);
        assert forall|i: int| 0 <= i < kept.len() implies !(#[trigger] kept[i]).contains(
            separator,
        ) by {
            if i < before.len() {
                assert(kept[i] == before[i]);
            }
        }
    }
}

/// A list without a wallet names the wallets it named before, in their order, but that one.
pub proof fn law_removed_wallet_is_gone(list: Seq<char>, wallet: Seq<char>)
    ensures
        wallet_names(without_wallet(list, wallet)) == names_without(wallet_names(list), wallet),
        !wallet_names(without_wallet(list, wallet)).contains(wallet),
{
    let parts = crate::text::split_on(list, ',');
    lemma_split_clean(list, ',');
    lemma_kept_clean(parts, wallet, ',');
    lemma_kept_names(parts, wallet);
    let kept = kept_parts(parts, wallet);
    reveal_strlit(",");
    assert(","@ =~= seq![',']);
    if kept.len() == 0 {
        let none = Seq::<char>::empty();
        assert(without_wallet(list, wallet) =~= none);
        assert(crate::text::split_on(none, ',') =~= seq![none]);
        assert(seq![none].drop_last() =~= Seq::<Seq<char>>::empty());
        assert(crate::text::spec_trim(none).len() == 0);
        assert(seq![none].last() == none);
        assert(names_among(seq![none].drop_last()) =~= Seq::<Seq<char>>::empty());
        assert(names_among(seq![none]) =~= Seq::<Seq<char>>::empty());
        assert(names_among(kept) =~= Seq::<Seq<char>>::empty());
    } else {
        lemma_split_joined(kept, ',');
    }
    lemma_without(wallet_names(list), wallet);
}

proof fn lemma_without(names: Seq<Seq<char>>, wallet: Seq<char>)
    ensures
        !names_without(names, wallet).contains(wallet),
    decreases names.len(),
{
    if names.len() > 0 {
        lemma_without(names.drop_last(), wallet);
        let before = names_without(names.drop_last(), wallet);
        let after = names_without(names, wallet);
        if after.contains(wallet) {
            let i = choose|i: int| 0 <= i < after.len() && after[i] == wallet;
            assert(before[i] == wallet);
        }
    }
}

/// Removing a wallet leaves every other line of the file as it is.
pub proof fn law_other_lines_are_kept(line: Seq<char>, wallet: Seq<char>)
    requires
        !crate::text::has_prefix(line, "TARGET_WALLETS="@),
    ensures
        edited_line(line, wallet) == line,
{
}

/// The wallets of a list are those before a comma and those behind it; what stands between two
/// commas names one wallet, without the white space around it, or none if nothing is left.
pub proof fn law_wallets_are_listed_with_commas(first: Seq<char>, second: Seq<char>)
    ensures
        wallet_names(first.push(',') + second) == wallet_names(first) + wallet_names(second),
        !first.contains(',') ==> wallet_names(first) == (if crate::text::spec_trim(first).len()
            > 0 {
            seq![crate::text::spec_trim(first)]
        } else {
            Seq::empty()
        }),
{
    crate::text::law_texts_are_cut_at_separators(first, second, ',');
    lemma_names_in_turn(
        crate::text::split_on(first, ','),
        crate::text::split_on(second, ','),
    );
    let one = seq![first];
    assert(one.drop_last() == Seq::<Seq<char>>::empty());
    assert(names_among(one.drop_last()) == Seq::<Seq<char>>::empty());
}

proof fn lemma_names_in_turn(first: Seq<Seq<char>>, second: Seq<Seq<char>>)
    ensures
        names_among(first + second) == names_among(first) + names_among(second),
    decreases second.len(),
{
    if second.len() == 0 {
        assert(first + second == first);
    } else {
        assert((first + second).drop_last() == first + second.drop_last());
        lemma_names_in_turn(first, second.drop_last());
    }
}

/// A wallet that is listed for the first time starts with the initial score and no trades, and no
/// wallet is known that was neither known nor listed.
pub proof fn law_new_wallets_start_afresh(
    scores: Map<Seq<char>, WalletScoreEntry>,
    wallets: Seq<Seq<char>>,
    initial_score: Binary64,
    wallet: Seq<char>,
)
    ensures
        ({
            let known = with_wallets(scores, wallets, initial_score);
            &&& known.dom().contains(wallet) <==> scores.dom().contains(wallet) || wallets.contains(
                wallet,
            )
            &&& wallets.contains(wallet) && !scores.dom().contains(wallet) ==> known[wallet].score
                == initial_score && known[wallet].trades == 0 && known[wallet].total_pnl_sol
                == Binary64::from_u64(0)
        }),
    decreases wallets.len(),
{
    if wallets.len() > 0 {
        let fewer = wallets.drop_last();
        law_new_wallets_start_afresh(scores, fewer, initial_score, wallet);
        if wallets.contains(wallet) && wallet != wallets.last() {
            let i = choose|i: int| 0 <= i < wallets.len() && wallets[i] == wallet;
            assert(fewer[i] == wallet);
        }
        if fewer.contains(wallet) {
            let i = choose|i: int| 0 <= i < fewer.len() && fewer[i] == wallet;
            assert(wallets[i] == wallet);
        }
        assert(wallets[wallets.len() - 1] == wallets.last());
    }
}

/// A result counts as one more trade and adds to what the wallet has brought.
pub proof fn law_results_are_added_up(e: WalletScoreEntry, pnl_sol: Binary64, c: WalletScoring)
    requires
        e.trades < u32::MAX,
    ensures
        scored(e, pnl_sol, c).trades == e.trades + 1,
        scored(e, pnl_sol, c).total_pnl_sol == e.total_pnl_sol.plus(pnl_sol),
{
}

/// A better result is worth no lower a score.
pub proof fn law_better_results_score_higher(
    e: WalletScoreEntry,
    worse: Binary64,
    better: Binary64,
    c: WalletScoring,
)
    requires
        worse.le(better),
        worse.is_finite(),
        better.is_finite(),
        e.score.is_finite(),
        c.sensitivity.is_finite(),
        !c.sensitivity.is_negative(),
        c.min_score.le(c.max_score),
        !e.score.plus(worse.times(c.sensitivity)).is_nan(),
        !e.score.plus(better.times(c.sensitivity)).is_nan(),
    ensures
        scored(e, worse, c).score.le(scored(e, better, c).score),
{
    crate::binary64::law_products_keep_order(worse, better, c.sensitivity);
    crate::binary64::law_sums_keep_order(
        e.score,
        worse.times(c.sensitivity),
        better.times(c.sensitivity),
    );
}

/// A score rises by the result times the sensitivity, as far as the highest score, and falls so as
/// far as the lowest.
pub proof fn law_scores_move_by_result_and_sensitivity(
    e: WalletScoreEntry,
    c: WalletScoring,
    score: u64,
    result: u64,
    sensitivity: u64,
    low: u64,
    high: u64,
)
    requires
        e.score == Binary64::from_u64(score),
        c.sensitivity == Binary64::from_u64(sensitivity),
        c.min_score == Binary64::from_u64(low),
        c.max_score == Binary64::from_u64(high),
        low <= high < 0x20_0000_0000_0000,
        result < 0x20_0000_0000_0000,
        sensitivity < 0x20_0000_0000_0000,
        score + result * sensitivity < 0x20_0000_0000_0000,
    ensures
        scored(e, Binary64::from_u64(result), c).score == Binary64::from_u64(
            if score + result * sensitivity < low {
                low
            } else if score + result * sensitivity > high {
                high
            } else {
                (score + result * sensitivity) as u64
            },
        ),
        score >= result * sensitivity ==> scored(
            e,
            Binary64::from_u64(result).negated(),
            c,
        ).score.eq_number(
            Binary64::from_u64(
                if score - result * sensitivity < low {
                    low
                } else if score - result * sensitivity > high {
                    high
                } else {
                    (score - result * sensitivity) as u64
                },
            ),
        ),
{
    assert(0 <= result * sensitivity) by (nonlinear_arith);
    let step = (result * sensitivity) as u64;
    let up = (score + step) as u64;
    let (r, k, s) = (
        Binary64::from_u64(result),
        Binary64::from_u64(sensitivity),
        Binary64::from_u64(score),
    );
    crate::binary64::law_whole_products_are_exact(result, sensitivity);
    crate::binary64::law_whole_sums_are_exact(score, step);
    crate::binary64::law_whole_order_is_kept(up, low);
    crate::binary64::law_whole_order_is_kept(high, up);
    crate::binary64::law_whole_numbers_are_exact(up);
    if score >= step {
        let down = (score - step) as u64;
        crate::binary64::law_whole_order_is_kept(down, low);
        crate::binary64::law_whole_order_is_kept(high, down);
        crate::binary64::law_whole_numbers_are_exact(down);
        crate::binary64::law_whole_numbers_are_exact(low);
        crate::binary64::law_whole_numbers_are_exact(high);
        crate::exits::lemma_whole_share(score, step, 1);
        assert(r.negated().times(k) == Binary64::from_u64(step).negated()) by {
            crate::binary64::law_whole_numbers_are_exact(result);
            crate::binary64::law_whole_numbers_are_exact(sensitivity);
            crate::binary64::law_whole_numbers_are_exact(step);
            reveal(Binary64::spec_times);
            crate::rounding::lemma_round_bound(r.size() * k.size(), Binary64::one_value());
            crate::rounding::lemma_exp2_positive(1074);
        }
    }
}

/// A wallet is dropped exactly where dropping is set at all, the wallet is known, and it has had
/// its trades and fallen as low as that.
pub proof fn law_wallets_are_dropped_for_their_score(
    scores: Map<Seq<char>, WalletScoreEntry>,
    wallet: Seq<char>,
    c: WalletScoring,
)
    ensures
        removal_due(scores, wallet, c) <==> Binary64::from_u64(0).lt(c.wallet_removal_score)
            && scores.dom().contains(wallet) && scores[wallet].trades >= c.min_trades_for_scoring
            && scores[wallet].score.le(c.wallet_removal_score),
{
}

/// A list in the file loses the wallet and keeps all others in their order.
pub proof fn law_listed_wallets_are_removed(list: Seq<char>, wallet: Seq<char>, other: Seq<char>)
    requires
        other != wallet,
    ensures
        ({
            let prefix = "TARGET_WALLETS="@;
            let after = edited_line(prefix + list, wallet);
            &&& crate::text::has_prefix(after, prefix)
            &&& !wallet_names(after.skip(prefix.len() as int)).contains(wallet)
            &&& wallet_names(after.skip(prefix.len() as int)).contains(other) <==> wallet_names(
                list,
            ).contains(other)
        }),
{
    let prefix = "TARGET_WALLETS="@;
    let line = prefix + list;
    crate::text::law_beginnings_and_ends_are_parts(line, prefix, list);
    assert(line.skip(prefix.len() as int) == list);
    let kept = without_wallet(list, wallet);
    crate::text::law_beginnings_and_ends_are_parts(prefix + kept, prefix, kept);
    assert((prefix + kept).skip(prefix.len() as int) == kept);
    law_removed_wallet_is_gone(list, wallet);
    lemma_others_stay(wallet_names(list), wallet, other);
}

proof fn lemma_others_stay(names: Seq<Seq<char>>, wallet: Seq<char>, other: Seq<char>)
    requires
        other != wallet,
    ensures
        names_without(names, wallet).contains(other) <==> names.contains(other),
    decreases names.len(),
{
    if names.len() > 0 {
        let fewer = names.drop_last();
        lemma_others_stay(fewer, wallet, other);
        let kept = names_without(fewer, wallet);
        if names.contains(other) && names.last() != other {
            let i = choose|i: int| 0 <= i < names.len() && names[i] == other;
            assert(fewer[i] == other);
        }
        if fewer.contains(other) {
            let i = choose|i: int| 0 <= i < fewer.len() && fewer[i] == other;
            assert(names[i] == other);
        }
        assert(names[names.len() - 1] == names.last());
        let after = names_without(names, wallet);
        if names.last() != wallet {
            assert(after == kept.push(names.last()));
            if kept.contains(other) {
                let i = choose|i: int| 0 <= i < kept.len() && kept[i] == other;
                assert(after[i] == other);
            }
            if after.contains(other) && names.last() != other {
                let i = choose|i: int| 0 <= i < after.len() && after[i] == other;
                assert(kept[i] == other);
            }
            assert(after[after.len() - 1] == names.last());
        }
    }
}

/// A file is edited line by line.
pub proof fn law_files_are_edited_line_by_line(
    line: Seq<char>,
    rest: Seq<char>,
    wallet: Seq<char>,
)
    requires
        !line.contains('\n'),
        line.len() > 0,
        line.last() != '\r',
    ensures
        edited_file(line, wallet) == edited_line(line, wallet),
        crate::text::text_lines(rest).len() == 1 ==> edited_file(line.push('\n') + rest, wallet)
            == edited_line(line, wallet) + "\n"@ + edited_line(
            crate::text::text_lines(rest)[0],
            wallet,
        ),
        crate::text::text_lines(rest).len() == 0 ==> edited_file(line.push('\n') + rest, wallet)
            == edited_line(line, wallet),
{
    crate::text::law_lines_end_at_breaks(line, rest);
    let f = |l: Seq<char>| edited_line(l, wallet);
    let lines = crate::text::text_lines(rest);
    assert(seq![line].map_values(f) == seq![edited_line(line, wallet)]);
    if lines.len() == 0 {
        assert(seq![line] + lines == seq![line]);
    } else if lines.len() == 1 {
        let both = (seq![line] + lines).map_values(f);
        assert(both == seq![edited_line(line, wallet), edited_line(lines[0], wallet)]);
        assert(both.drop_last() == seq![edited_line(line, wallet)]);
    }
}

} // verus!
