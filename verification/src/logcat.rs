//! The logcat side of the helper: parsing one `threadtime` log line into
//! its fields, and the registry of active log streams per device serial.
//! Spawning and killing the reader processes happens outside this library;
//! the registry here only decides which stream may start or stop.

use vstd::prelude::*;
use vstd::string::StrSliceExecFns;
use vstd::string::StringExecFns;

use crate::text::find_sub;
use crate::text::find_sub_at;
use crate::text::spec_splitn_ws;
use crate::text::spec_trim;
use crate::text::spec_trim_start;
use crate::text::splitn_ws;
use crate::text::str_eq;
use crate::text::trim_start_str;
use crate::text::trim_str;

verus! {

/// One parsed log line.
#[derive(Debug, Clone)]
pub struct LogcatLine {
    pub timestamp: String,
    pub pid: String,
    pub tid: String,
    pub level: String,
    pub tag: String,
    pub message: String,
    pub raw: String,
}

/// The fields of a log line as sequences, for contracts.
pub struct LogcatLineFields {
    pub timestamp: Seq<char>,
    pub pid: Seq<char>,
    pub tid: Seq<char>,
    pub level: Seq<char>,
    pub tag: Seq<char>,
    pub message: Seq<char>,
    pub raw: Seq<char>,
}

impl View for LogcatLine {
    type V = LogcatLineFields;

    open spec fn view(&self) -> LogcatLineFields {
        LogcatLineFields {
            timestamp: self.timestamp@,
            pid: self.pid@,
            tid: self.tid@,
            level: self.level@,
            tag: self.tag@,
            message: self.message@,
            raw: self.raw@,
        }
    }
}

/// A recognized log level letter.
pub open spec fn spec_level_ok(level: Seq<char>) -> bool {
    level == "V"@ || level == "D"@ || level == "I"@ || level == "W"@ || level == "E"@ || level
        == "F"@ || level == "S"@
}

/// The fields a `threadtime` log line parses to, or nothing when the line
/// does not carry the `MM-DD HH:MM:SS.mmm  PID  TID LEVEL TAG : message`
/// shape: an 18-character timestamp validated by its separators, then
/// whitespace-separated process id, thread id and level, then the tag and
/// message split at the first `": "`.
pub open spec fn spec_parse_logcat(s: Seq<char>) -> Option<LogcatLineFields> {
    let t = spec_trim(s);
    if t.len() < 20 {
        None
    } else if !(t[2] == '-' && t[5] == ' ' && t[8] == ':' && t[11] == ':' && t[14] == '.') {
        None
    } else {
        let timestamp = t.subrange(0, 18);
        let rest = spec_trim_start(t.subrange(18, t.len() as int));
        let parts = spec_splitn_ws(rest, 4);
        if parts.len() < 4 {
            None
        } else {
            let pid = spec_trim(parts[0]);
            let remaining = spec_trim_start(rest.subrange(parts[0].len() as int, rest.len() as int));
            let parts2 = spec_splitn_ws(remaining, 3);
            if parts2.len() < 3 {
                None
            } else {
                let tid = spec_trim(parts2[0]);
                let after_tid = spec_trim_start(
                    remaining.subrange(parts2[0].len() as int, remaining.len() as int),
                );
                let parts3 = spec_splitn_ws(after_tid, 2);
                if parts3.len() == 0 {
                    None
                } else {
                    let level = spec_trim(parts3[0]);
                    if !spec_level_ok(level) {
                        None
                    } else {
                        let after_level = if parts3.len() > 1 {
                            spec_trim_start(
                                after_tid.subrange(parts3[0].len() as int, after_tid.len() as int),
                            )
                        } else {
                            Seq::empty()
                        };
                        let cp = find_sub(after_level, ": "@, 0);
                        let tag_msg = if cp >= 0 {
                            (
                                spec_trim(after_level.subrange(0, cp)),
                                after_level.subrange(cp + 2, after_level.len() as int),
                            )
                        } else if after_level.len() > 0 && after_level[after_level.len() - 1]
                            == ':' {
                            (
                                spec_trim(after_level.subrange(0, after_level.len() - 1)),
                                Seq::empty(),
                            )
                        } else {
                            (spec_trim(after_level), Seq::empty())
                        };
                        Some(
                            LogcatLineFields {
                                timestamp,
                                pid,
                                tid,
                                level,
                                tag: tag_msg.0,
                                message: tag_msg.1,
                                raw: s,
                            },
                        )
                    }
                }
            }
        }
    }
}

/// Parses one `threadtime` log line.
pub fn parse_logcat_line(line: &str) -> (r: Option<LogcatLine>)
    ensures
        match r {
            Some(l) => spec_parse_logcat(line@) matches Some(v) && l@ == v,
            None => spec_parse_logcat(line@) is None,
        },
{
    let raw = String::from_str(line);
    let t = trim_str(line);
    let tlen = t.unicode_len();
    if tlen < 20 {
        return None;
    }
    if !(t.get_char(2) == '-' && t.get_char(5) == ' ' && t.get_char(8) == ':' && t.get_char(11)
        == ':' && t.get_char(14) == '.') {
        return None;
    }
    let timestamp = String::from_str(t.substring_char(0, 18));
    let rest = trim_start_str(t.substring_char(18, tlen));
    let restlen = rest.unicode_len();
    let parts = splitn_ws(rest, 4);
    if parts.len() < 4 {
        return None;
    }
    let pid = String::from_str(trim_str(parts[0].as_str()));
    let p0len = parts[0].as_str().unicode_len();
    proof {
        crate::text::lemma_find_if(rest@, crate::text::ws_pred(), 0);
    }
    let remaining = trim_start_str(rest.substring_char(p0len, restlen));
    let remlen = remaining.unicode_len();
    let parts2 = splitn_ws(remaining, 3);
    if parts2.len() < 3 {
        return None;
    }
    let tid = String::from_str(trim_str(parts2[0].as_str()));
    let p20len = parts2[0].as_str().unicode_len();
    proof {
        crate::text::lemma_find_if(remaining@, crate::text::ws_pred(), 0);
    }
    let after_tid = trim_start_str(remaining.substring_char(p20len, remlen));
    let atlen = after_tid.unicode_len();
    let parts3 = splitn_ws(after_tid, 2);
    if parts3.len() == 0 {
        return None;
    }
    let level = String::from_str(trim_str(parts3[0].as_str()));
    let lvl_ok = str_eq(level.as_str(), "V") || str_eq(level.as_str(), "D") || str_eq(
        level.as_str(),
        "I",
    ) || str_eq(level.as_str(), "W") || str_eq(level.as_str(), "E") || str_eq(level.as_str(), "F")
        || str_eq(level.as_str(), "S");
    if !lvl_ok {
        return None;
    }
    let p30len = parts3[0].as_str().unicode_len();
    proof {
        crate::text::lemma_find_if(after_tid@, crate::text::ws_pred(), 0);
    }
    let after_level: &str = if parts3.len() > 1 {
        trim_start_str(after_tid.substring_char(p30len, atlen))
    } else {
        ""
    };
    proof {
        reveal_strlit("");
        assert(""@ =~= Seq::<char>::empty());
        reveal_strlit(": ");
    }
    let allen = after_level.unicode_len();
    let (tag, message): (String, String) = match find_sub_at(after_level, ": ", 0) {
        Some(cp) => (
            String::from_str(trim_str(after_level.substring_char(0, cp))),
            String::from_str(after_level.substring_char(cp + 2, allen)),
        ),
        None => {
            if allen > 0 && after_level.get_char(allen - 1) == ':' {
                (
                    String::from_str(trim_str(after_level.substring_char(0, allen - 1))),
                    String::new(),
                )
            } else {
                (String::from_str(trim_str(after_level)), String::new())
            }
        },
    };
    Some(LogcatLine { timestamp, pid, tid, level, tag, message, raw })
}

/// How long a written log file is kept, in seconds: seven days.
pub const LOG_RETENTION_SECS: u64 = 7 * 24 * 60 * 60;

/// Whether a log file of the given age is due for removal.
pub fn log_expired(age_seconds: u64) -> (r: bool)
    ensures
        r == (age_seconds > LOG_RETENTION_SECS),
{
    age_seconds > LOG_RETENTION_SECS
}

/// The serial-to-pid map a list of stream entries denotes; a later entry
/// for the same serial wins.
pub open spec fn streams_map(v: Seq<(String, u32)>) -> Map<Seq<char>, u32>
    decreases v.len(),
{
    if v.len() == 0 {
        Map::empty()
    } else {
        streams_map(v.drop_last()).insert(v.last().0@, v.last().1)
    }
}

/// A key is in the map exactly when some entry carries it.
pub proof fn lemma_streams_map_contains(v: Seq<(String, u32)>, k: Seq<char>)
    ensures
        streams_map(v).contains_key(k) <==> exists|i: int| 0 <= i < v.len() && v[i].0@ == k,
    decreases v.len(),
{
    if v.len() > 0 {
        lemma_streams_map_contains(v.drop_last(), k);
        if streams_map(v).contains_key(k) {
            if v.last().0@ == k {
                assert(v[v.len() - 1].0@ == k);
            } else {
                let i = choose|i: int| 0 <= i < v.len() - 1 && v.drop_last()[i].0@ == k;
                assert(v[i].0@ == k);
            }
        }
        if exists|i: int| 0 <= i < v.len() && v[i].0@ == k {
            let i = choose|i: int| 0 <= i < v.len() && v[i].0@ == k;
            if i < v.len() - 1 {
                assert(v.drop_last()[i].0@ == k);
            }
        }
    }
}

/// When exactly one entry carries a key, the map holds that entry's pid.
pub proof fn lemma_streams_map_value(v: Seq<(String, u32)>, i: int)
    requires
        0 <= i < v.len(),
        forall|j: int| 0 <= j < v.len() && j != i ==> v[j].0@ != v[i].0@,
    ensures
        streams_map(v).contains_key(v[i].0@),
        streams_map(v)[v[i].0@] == v[i].1,
    decreases v.len(),
{
    if i == v.len() - 1 {
    } else {
        assert forall|j: int| 0 <= j < v.len() - 1 && j != i implies v.drop_last()[j].0@
            != v.drop_last()[i].0@ by {
            assert(v.drop_last()[j] == v[j]);
        }
        lemma_streams_map_value(v.drop_last(), i);
        assert(v.last().0@ != v[i].0@);
    }
}

/// Removing the only entry that carries a key removes the key.
pub proof fn lemma_streams_map_remove(v: Seq<(String, u32)>, i: int)
    requires
        0 <= i < v.len(),
        forall|a: int, b: int| 0 <= a < b < v.len() ==> v[a].0@ != v[b].0@,
    ensures
        streams_map(v.remove(i)) =~= streams_map(v).remove(v[i].0@),
    decreases v.len(),
{
    lemma_streams_map_contains(v.remove(i), v[i].0@);
    if i == v.len() - 1 {
        assert(v.remove(i) =~= v.drop_last());
        lemma_streams_map_contains(v.drop_last(), v[i].0@);
        assert(!streams_map(v.drop_last()).contains_key(v[i].0@));
        assert(streams_map(v.drop_last()) =~= streams_map(v.drop_last()).insert(
            v.last().0@,
            v.last().1,
        ).remove(v.last().0@));
    } else {
        assert(v.remove(i).drop_last() =~= v.drop_last().remove(i));
        assert(v.remove(i).last() == v.last());
        lemma_streams_map_remove(v.drop_last(), i);
        assert(v.drop_last()[i] == v[i]);
        assert(streams_map(v.remove(i)) =~= streams_map(v.drop_last().remove(i)).insert(
            v.last().0@,
            v.last().1,
        ));
        assert(v.last().0@ != v[i].0@);
        assert(streams_map(v.drop_last()).remove(v[i].0@).insert(v.last().0@, v.last().1)
            =~= streams_map(v.drop_last()).insert(v.last().0@, v.last().1).remove(v[i].0@));
    }
}

/// The registry of active log streams: which device serials have a reader
/// running, and under which process id.
pub struct LogcatState {
    pub active_streams: Vec<(String, u32)>,
}

impl View for LogcatState {
    type V = Map<Seq<char>, u32>;

    open spec fn view(&self) -> Map<Seq<char>, u32> {
        streams_map(self.active_streams@)
    }
}

impl LogcatState {
    /// No serial occurs twice.
    pub open spec fn wf(self) -> bool {
        forall|a: int, b: int|
            0 <= a < b < self.active_streams@.len() ==> self.active_streams@[a].0@
                != self.active_streams@[b].0@
    }

    /// An empty registry.
    pub fn new() -> (s: Self)
        ensures
            s.wf(),
            s@ == Map::<Seq<char>, u32>::empty(),
    {
        LogcatState { active_streams: Vec::new() }
    }

    /// The index of the entry for `serial`, if one exists.
    fn find_index(&self, serial: &str) -> (r: Option<usize>)
        ensures
            match r {
                Some(i) => i < self.active_streams@.len() && self.active_streams@[i as int].0@
                    == serial@,
                None => forall|i: int|
                    0 <= i < self.active_streams@.len() ==> self.active_streams@[i].0@ != serial@,
            },
    {
        let mut i: usize = 0;
        while i < self.active_streams.len()
            invariant
                i <= self.active_streams@.len(),
                forall|j: int| 0 <= j < i ==> self.active_streams@[j].0@ != serial@,
            decreases self.active_streams@.len() - i,
        {
            if str_eq(self.active_streams[i].0.as_str(), serial) {
                return Some(i);
            }
            i += 1;
        }
        None
    }

    /// The pid of the stream registered for `serial`, if any.
    pub fn active_pid(&self, serial: &str) -> (r: Option<u32>)
        requires
            self.wf(),
        ensures
            match r {
                Some(pid) => self@.contains_key(serial@) && pid == self@[serial@],
                None => !self@.contains_key(serial@),
            },
    {
        proof {
            lemma_streams_map_contains(self.active_streams@, serial@);
        }
        match self.find_index(serial) {
            Some(i) => {
                proof {
                    lemma_streams_map_value(self.active_streams@, i as int);
                }
                Some(self.active_streams[i].1)
            },
            None => None,
        }
    }

    /// Registers a stream for `serial`; refused when one is already
    /// running.
    pub fn register_stream(&mut self, serial: &str, pid: u32) -> (r: bool)
        requires
            old(self).wf(),
        ensures
            final(self).wf(),
            r == !old(self)@.contains_key(serial@),
            r ==> final(self)@ == old(self)@.insert(serial@, pid),
            !r ==> final(self)@ == old(self)@,
    {
        proof {
            lemma_streams_map_contains(self.active_streams@, serial@);
        }
        match self.find_index(serial) {
            Some(_) => false,
            None => {
                let ghost prev = self.active_streams@;
                self.active_streams.push((String::from_str(serial), pid));
                proof {
                    assert(self.active_streams@.drop_last() =~= prev);
                }
                true
            },
        }
    }

    /// Removes the stream registered for `serial` and yields its pid, or
    /// nothing when none is running.
    pub fn remove_stream(&mut self, serial: &str) -> (r: Option<u32>)
        requires
            old(self).wf(),
        ensures
            final(self).wf(),
            match r {
                Some(pid) => old(self)@.contains_key(serial@) && pid == old(self)@[serial@]
                    && final(self)@ == old(self)@.remove(serial@),
                None => !old(self)@.contains_key(serial@) && final(self)@ == old(self)@,
            },
    {
        proof {
            lemma_streams_map_contains(self.active_streams@, serial@);
        }
        match self.find_index(serial) {
            Some(i) => {
                let ghost prev = self.active_streams@;
                proof {
                    lemma_streams_map_value(prev, i as int);
                    lemma_streams_map_remove(prev, i as int);
                }
                let entry = self.active_streams.remove(i);
                proof {
                    assert forall|a: int, b: int|
                        0 <= a < b < self.active_streams@.len() implies self.active_streams@[a].0@
                        != self.active_streams@[b].0@ by {
                        if b < i {
                            assert(self.active_streams@[a] == prev[a]);
                            assert(self.active_streams@[b] == prev[b]);
                        } else if a < i {
                            assert(self.active_streams@[a] == prev[a]);
                            assert(self.active_streams@[b] == prev[b + 1]);
                        } else {
                            assert(self.active_streams@[a] == prev[a + 1]);
                            assert(self.active_streams@[b] == prev[b + 1]);
                        }
                    }
                }
                Some(entry.1)
            },
            None => None,
        }
    }
}

} // verus!
