//! The lock that keeps a second bot from running.
use vstd::prelude::*;

verus! {

/// The name of the lock file.
pub const LOCKFILE: &'static str = "bot.lock";

/// The process that a lock file names; none where it is unreadable or names none.
pub open spec fn named_process(contents: Option<String>) -> Option<u32> {
    match contents {
        Some(text) => match crate::text::unsigned_number(
            crate::text::spec_trim(text@),
            u32::MAX as nat,
        ) {
            Ok(n) => Some(n as u32),
            Err(_) => None,
        },
        None => None,
    }
}

/// The process that has to be looked for before the lock is taken.
pub fn lock_owner(contents: &Option<String>) -> (r: Option<u32>)
    ensures
        r == named_process(*contents),
{
    match contents {
        Some(text) => {
            let trimmed: String = crate::text::trim(text.as_str());
            match crate::text::parse_unsigned(trimmed.as_str(), u32::MAX as u64) {
                Ok(n) => Some(n as u32),
                Err(_) => None,
            }
        },
        None => None,
    }
}

/// Why the lock is refused.
pub open spec fn refusal(pid: u32) -> Seq<char> {
    "Another bot instance is already running (PID "@ + crate::text::decimal(pid as nat)
        + "). Kill it first or delete "@ + LOCKFILE@ + " if stale."@
}

/// Takes the lock for `my_pid`, unless the process that holds it is alive. Gives what the lock
/// file is to hold.
pub fn acquire_lock(contents: &Option<String>, owner_is_alive: bool, my_pid: u32) -> (r: Result<
    String,
    String,
>)
    ensures
        match named_process(*contents) {
            Some(pid) if owner_is_alive => r is Err && r->Err_0@ == refusal(pid),
            _ => r is Ok && r->Ok_0@ == crate::text::decimal(my_pid as nat),
        },
        match r {
            Ok(text) => lock_answer(*contents, owner_is_alive, my_pid) == Ok::<
                Seq<char>,
                Seq<char>,
            >(text@),
            Err(text) => lock_answer(*contents, owner_is_alive, my_pid) == Err::<
                Seq<char>,
                Seq<char>,
            >(text@),
        },
{
    if let Some(pid) = lock_owner(contents) {
        if owner_is_alive {
            let mut message: String = "Another bot instance is already running (PID ".to_owned();
            let number: String = crate::text::decimal_text(pid as u64);
            message.append(number.as_str());
            message.append("). Kill it first or delete ");
            message.append(LOCKFILE);
            message.append(" if stale.");
            return Err(message);
        }
    }
    Ok(crate::text::decimal_text(my_pid as u64))
}

proof fn lemma_decimal_reads_back(n: nat, max: nat)
    requires
        n <= max,
    ensures
        crate::text::decimal(n).len() > 0,
        crate::text::digits_number(crate::text::decimal(n), max) == Ok::<
            nat,
            crate::text::NumberError,
        >(n),
        crate::text::digits_value(crate::text::decimal(n)) == n,
        forall|i: int|
            0 <= i < crate::text::decimal(n).len() ==> crate::text::is_digit(
                #[trigger] crate::text::decimal(n)[i],
            ),
    decreases n,
{
    let s = crate::text::decimal(n);
    let d = crate::text::digit_char(n % 10);
    assert('0' <= d && d <= '9' && d as nat - '0' as nat == n % 10);
    if n < 10 {
        assert(s.drop_last() =~= Seq::<char>::empty());
        assert(s.last() == d);
        reveal_with_fuel(crate::text::digits_number, 2);
        reveal_with_fuel(crate::text::digits_value, 2);
    } else {
        lemma_decimal_reads_back(n / 10, max);
        let front = crate::text::decimal(n / 10);
        assert(s == front.push(d));
        assert(s.drop_last() =~= front);
        assert(s.last() == d);
        assert forall|i: int| 0 <= i < s.len() implies crate::text::is_digit(#[trigger] s[i]) by {
            if i < front.len() {
                assert(s[i] == front[i]);
            }
        }
    }
}

/// A lock that was taken keeps another bot out: what is written names the process that wrote it.
pub proof fn law_lock_names_its_owner(contents: String, pid: u32)
    requires
        contents@ == crate::text::decimal(pid as nat),
    ensures
        named_process(Some(contents)) == Some(pid),
{
    let s = crate::text::decimal(pid as nat);
    lemma_decimal_reads_back(pid as nat, u32::MAX as nat);
    assert(crate::text::is_digit(s[0]));
    assert(crate::text::is_digit(s[s.len() - 1]));
    assert(crate::text::trim_start(s) == s);
    assert(crate::text::trim_end(s) == s);
    assert(crate::text::number_digits(s) == s);
}

/// A number that was written is read again as it was.
pub proof fn law_written_numbers_read_back(n: nat, max: nat)
    requires
        n <= max,
    ensures
        crate::text::unsigned_number(crate::text::decimal(n), max) == Ok::<
            nat,
            crate::text::NumberError,
        >(n),
{
    lemma_decimal_reads_back(n, max);
}

/// What is written into the lock, or said to one that comes too late.
pub open spec fn lock_answer(
    contents: Option<String>,
    owner_is_alive: bool,
    my_pid: u32,
) -> Result<Seq<char>, Seq<char>> {
    match named_process(contents) {
        Some(pid) if owner_is_alive => Err(refusal(pid)),
        _ => Ok(crate::text::decimal(my_pid as nat)),
    }
}

/// The lock is refused exactly while the process that it names is alive; whoever gets it writes
/// its own number.
pub proof fn law_living_owners_keep_the_lock(
    contents: Option<String>,
    owner_is_alive: bool,
    my_pid: u32,
)
    ensures
        lock_answer(contents, owner_is_alive, my_pid) is Err <==> owner_is_alive && contents is Some
            && crate::text::unsigned_number(
            crate::text::spec_trim(contents->0@),
            u32::MAX as nat,
        ) is Ok,
        lock_answer(contents, owner_is_alive, my_pid) is Ok ==> lock_answer(
            contents,
            owner_is_alive,
            my_pid,
        )->Ok_0 == crate::text::decimal(my_pid as nat),
{
}

} // verus!
