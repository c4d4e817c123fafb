//! The in-memory transport used to exercise commands without a device.
//!
//! A real transport carries shell lines to a device and returns raw stdout;
//! that is I/O and lives with the program that owns the connection. The mock
//! here answers from a fixed table instead, so it is ordinary logic.

use vstd::prelude::*;

use crate::command::error::{CommandError, CommandResult};
use crate::text::{chars_of, contains, contains_vec, push_str, string_of};

verus! {

/// In-memory transport for tests: maps a shell command substring to a canned
/// response. Lets commands be exercised with zero hardware.
pub struct MockTransport {
    /// (substring-to-match, response) pairs, checked in order.
    pub responses: Vec<(String, String)>,
    pub devices: Vec<String>,
}

/// The response of the first pair whose needle occurs in `cmd`.
pub open spec fn mock_lookup(pairs: Seq<(Seq<char>, Seq<char>)>, cmd: Seq<char>) -> Option<
    Seq<char>,
>
    decreases pairs.len(),
{
    if pairs.len() == 0 {
        None
    } else if contains(cmd, pairs[0].0) {
        Some(pairs[0].1)
    } else {
        mock_lookup(pairs.drop_first(), cmd)
    }
}

pub open spec fn string_views(ss: Seq<String>) -> Seq<Seq<char>> {
    ss.map_values(|s: String| s@)
}

impl MockTransport {
    /// The (needle, response) table as character sequences.
    pub open spec fn pairs(&self) -> Seq<(Seq<char>, Seq<char>)> {
        self.responses@.map_values(|p: (String, String)| (p.0@, p.1@))
    }

    /// The same transport with one more (needle, response) pair at the end.
    pub fn with(self, contains: &str, response: &str) -> (r: Self)
        ensures
            r.pairs() == self.pairs().push((contains@, response@)),
            string_views(r.devices@) == string_views(self.devices@),
    {
        let mut s = self;
        let ghost before = s.pairs();
        s.responses.push((string_of(chars_of(contains).as_slice()), string_of(chars_of(response).as_slice())));
        assert(s.pairs() =~= before.push((contains@, response@)));
        s
    }

    /// Runs `shell_cmd` against the table: the response of the first pair
    /// whose needle occurs in the command, or a transport error naming the
    /// command. The serial is ignored.
    pub fn shell(&self, serial: Option<&str>, shell_cmd: &str) -> (r: CommandResult<String>)
        ensures
            match mock_lookup(self.pairs(), shell_cmd@) {
                Some(resp) => r matches Ok(out) && out@ == resp,
                None => r matches Err(CommandError::Transport(m)) && m@ == "no mock for `"@
                    + shell_cmd@ + "`"@,
            },
    {
        let cmd = chars_of(shell_cmd);
        let mut i: usize = 0;
        assert(self.pairs().skip(0) =~= self.pairs());
        while i < self.responses.len()
            invariant
                i <= self.responses.len(),
                cmd@ == shell_cmd@,
                mock_lookup(self.pairs().skip(i as int), cmd@) == mock_lookup(self.pairs(), cmd@),
            decreases self.responses.len() - i,
        {
            let needle = chars_of(self.responses[i].0.as_str());
            assert(self.pairs().skip(i as int)[0] == self.pairs()[i as int]);
            assert(self.pairs().skip(i as int).drop_first() =~= self.pairs().skip(i + 1));
            if contains_vec(&cmd, &needle) {
                let resp = self.responses[i].1.clone();
                return Ok(resp);
            }
            i += 1;
        }
        assert(self.pairs().skip(i as int) =~= Seq::<(Seq<char>, Seq<char>)>::empty());
        let mut msg: Vec<char> = Vec::new();
        push_str(&mut msg, "no mock for `");
        push_str(&mut msg, shell_cmd);
        push_str(&mut msg, "`");
        Err(CommandError::Transport(string_of(msg.as_slice())))
    }

    /// The configured device serials.
    pub fn list_devices(&self) -> (r: CommandResult<Vec<String>>)
        ensures
            r matches Ok(ds) && string_views(ds@) == string_views(self.devices@),
    {
        let mut out: Vec<String> = Vec::new();
        let mut i: usize = 0;
        while i < self.devices.len()
            invariant
                i <= self.devices.len(),
                string_views(out@) == string_views(self.devices@.take(i as int)),
            decreases self.devices.len() - i,
        {
            let ghost before = out@;
            let d = self.devices[i].clone();
            assert(d@ == self.devices@[i as int]@);
            out.push(d);
            assert(string_views(out@) =~= string_views(before).push(d@));
            assert(string_views(out@) =~= string_views(self.devices@.take(i + 1)));
            i += 1;
        }
        assert(self.devices@.take(i as int) =~= self.devices@);
        Ok(out)
    }
}

impl Default for MockTransport {
    fn default() -> (r: Self)
        ensures
            r.responses@.len() == 0,
            r.devices@.len() == 0,
    {
        MockTransport { responses: Vec::new(), devices: Vec::new() }
    }
}

} // verus!
