//! The command surface: recognizing the prefixed commands, pulling the
//! request text out of a message, the fixed reply texts, the preset
//! radio streams, and the elapsed-time formatting.

use vstd::prelude::*;

use crate::metadata::{char_pos_or_len, lemma_char_pos_found, lemma_char_pos_none};
use crate::text::{
    chars_vec, find_char_from, matches_at, replace_all, spec_replace_all, spec_trim,
    string_from_chars, subvec, trim,
};

verus! {

/// The commands the bot answers; anything else with the prefix is
/// ignored.
#[derive(Clone, Copy, Debug, PartialEq, Eq, Structural)]
pub enum Command {
    Join,
    Leave,
    Pause,
    Play,
    Help,
    RadioList,
    Stop,
    Time,
    Add,
    List,
    Desc,
    RadioZu,
    RadioVirgin,
    Radio24House,
    RadioClubbers,
    RadioUv,
    RadioHouse,
    RadioDanceFm,
    Volume,
    Repeat,
}

/// The first word of a message: everything before the first space.
pub open spec fn first_token(s: Seq<char>) -> Seq<char> {
    s.take(char_pos_or_len(s, ' '))
}

/// Which command a message selects: its first word must be one of the
/// known names, and the message must carry the command prefix at all.
pub open spec fn spec_parse_command(s: Seq<char>) -> Option<Command> {
    if s.len() == 0 || s[0] != '!' {
        None
    } else {
        let t = first_token(s);
        if t == "!join"@ {
            Some(Command::Join)
        } else if t == "!leave"@ {
            Some(Command::Leave)
        } else if t == "!pause"@ {
            Some(Command::Pause)
        } else if t == "!play"@ {
            Some(Command::Play)
        } else if t == "!help"@ {
            Some(Command::Help)
        } else if t == "!radiolist"@ {
            Some(Command::RadioList)
        } else if t == "!stop"@ {
            Some(Command::Stop)
        } else if t == "!time"@ {
            Some(Command::Time)
        } else if t == "!add"@ {
            Some(Command::Add)
        } else if t == "!list"@ {
            Some(Command::List)
        } else if t == "!desc"@ {
            Some(Command::Desc)
        } else if t == "!radiozu"@ {
            Some(Command::RadioZu)
        } else if t == "!radiovirgin"@ {
            Some(Command::RadioVirgin)
        } else if t == "!radio24house"@ {
            Some(Command::Radio24House)
        } else if t == "!radioclubbers"@ {
            Some(Command::RadioClubbers)
        } else if t == "!radiouv"@ {
            Some(Command::RadioUv)
        } else if t == "!radiohouse"@ {
            Some(Command::RadioHouse)
        } else if t == "!radiodancefm"@ {
            Some(Command::RadioDanceFm)
        } else if t == "!volume"@ {
            Some(Command::Volume)
        } else if t == "!repeat"@ {
            Some(Command::Repeat)
        } else {
            None
        }
    }
}

fn vec_eq(a: &Vec<char>, b: &Vec<char>) -> (r: bool)
    ensures
        r == (a@ == b@),
{
    if a.len() != b.len() {
        proof {
            assert(a@ != b@);
        }
        return false;
    }
    let r = matches_at(a, b, 0);
    proof {
        if r {
            assert(a@.subrange(0, b@.len() as int) =~= a@);
        } else {
            if a@ == b@ {
                assert(a@.subrange(0, b@.len() as int) =~= b@);
            }
        }
    }
    r
}

/// Recognizes the command a message selects.
pub fn parse_command(content: &str) -> (r: Option<Command>)
    ensures
        r == spec_parse_command(content@),
{
    let cs = chars_vec(content);
    if cs.len() == 0 {
        return None;
    }
    if cs[0] != '!' {
        return None;
    }
    let stop = find_char_from(&cs, 0, ' ');
    let tok_end = match stop {
        Some(i) => {
            proof {
                lemma_char_pos_found(cs@, ' ', i as int);
            }
            i
        },
        None => {
            proof {
                lemma_char_pos_none(cs@, ' ');
            }
            cs.len()
        },
    };
    let token = subvec(&cs, 0, tok_end);
    proof {
        assert(token@ =~= first_token(content@));
    }
    if vec_eq(&token, &chars_vec("!join")) {
        Some(Command::Join)
    } else if vec_eq(&token, &chars_vec("!leave")) {
        Some(Command::Leave)
    } else if vec_eq(&token, &chars_vec("!pause")) {
        Some(Command::Pause)
    } else if vec_eq(&token, &chars_vec("!play")) {
        Some(Command::Play)
    } else if vec_eq(&token, &chars_vec("!help")) {
        Some(Command::Help)
    } else if vec_eq(&token, &chars_vec("!radiolist")) {
        Some(Command::RadioList)
    } else if vec_eq(&token, &chars_vec("!stop")) {
        Some(Command::Stop)
    } else if vec_eq(&token, &chars_vec("!time")) {
        Some(Command::Time)
    } else if vec_eq(&token, &chars_vec("!add")) {
        Some(Command::Add)
    } else if vec_eq(&token, &chars_vec("!list")) {
        Some(Command::List)
    } else if vec_eq(&token, &chars_vec("!desc")) {
        Some(Command::Desc)
    } else if vec_eq(&token, &chars_vec("!radiozu")) {
        Some(Command::RadioZu)
    } else if vec_eq(&token, &chars_vec("!radiovirgin")) {
        Some(Command::RadioVirgin)
    } else if vec_eq(&token, &chars_vec("!radio24house")) {
        Some(Command::Radio24House)
    } else if vec_eq(&token, &chars_vec("!radioclubbers")) {
        Some(Command::RadioClubbers)
    } else if vec_eq(&token, &chars_vec("!radiouv")) {
        Some(Command::RadioUv)
    } else if vec_eq(&token, &chars_vec("!radiohouse")) {
        Some(Command::RadioHouse)
    } else if vec_eq(&token, &chars_vec("!radiodancefm")) {
        Some(Command::RadioDanceFm)
    } else if vec_eq(&token, &chars_vec("!volume")) {
        Some(Command::Volume)
    } else if vec_eq(&token, &chars_vec("!repeat")) {
        Some(Command::Repeat)
    } else {
        None
    }
}

/// The request text of a play or add command: everything from the
/// first space on, trimmed, remaining spaces turned into plus signs;
/// empty when the message is the bare command word.
pub open spec fn spec_request_text(s: Seq<char>) -> Seq<char> {
    if char_pos_or_len(s, ' ') == s.len() {
        Seq::empty()
    } else {
        spec_replace_all(spec_trim(s.skip(char_pos_or_len(s, ' '))), seq![' '], seq!['+'])
    }
}

/// Pulls the request text out of a play or add message.
pub fn request_text(content: &str) -> (r: String)
    ensures
        r@ == spec_request_text(content@),
{
    let cs = chars_vec(content);
    let stop = find_char_from(&cs, 0, ' ');
    match stop {
        None => {
            proof {
                lemma_char_pos_none(cs@, ' ');
            }
            String::new()
        },
        Some(i) => {
            proof {
                lemma_char_pos_found(cs@, ' ', i as int);
            }
            let tail = subvec(&cs, i, cs.len());
            proof {
                assert(tail@ =~= content@.skip(i as int));
            }
            let trimmed = trim(&tail);
            let sp = vec![' '];
            let plus = vec!['+'];
            proof {
                assert(sp@ =~= seq![' ']);
                assert(plus@ =~= seq!['+']);
            }
            let replaced = replace_all(&trimmed, &sp, &plus);
            string_from_chars(&replaced)
        },
    }
}

// ---------------------------------------------------------------------------
// Replies.
// ---------------------------------------------------------------------------
/// Builds a plain reply from a fixed text.
pub fn fixed_reply(text: &str) -> (r: String)
    ensures
        r@ == text@,
{
    String::from_str(text)
}

/// The reply to a successful join: the channel in an angle-bracket
/// mention.
pub open spec fn spec_joined_reply(ch: nat) -> Seq<char> {
    "Joined <#"@ + crate::text::spec_u64_dec(ch) + ">!"@
}

/// The reply to a failed join, carrying the transport's reason.
pub open spec fn spec_join_failed_reply(ch: nat, why: Seq<char>) -> Seq<char> {
    "Failed to join <#"@ + crate::text::spec_u64_dec(ch) + ">! Why: "@ + why
}

/// Builds the reply to a successful join.
pub fn joined_reply(ch: u64) -> (r: String)
    ensures
        r@ == spec_joined_reply(ch as nat),
{
    let mut s = String::from_str("Joined <#");
    let d = crate::text::u64_dec(ch);
    let ds = string_from_chars(&d);
    s.append(ds.as_str());
    s.append(">!");
    s
}

/// Builds the reply to a failed join around the transport's reason.
pub fn join_failed_reply(ch: u64, why: &str) -> (r: String)
    ensures
        r@ == spec_join_failed_reply(ch as nat, why@),
{
    let mut s = String::from_str("Failed to join <#");
    let d = crate::text::u64_dec(ch);
    let ds = string_from_chars(&d);
    s.append(ds.as_str());
    s.append(">! Why: ");
    s.append(why);
    s
}

/// The reply announcing the track now playing, its title quoted; an
/// unknown title is announced as such.
pub open spec fn spec_play_reply(title: Option<Seq<char>>) -> Seq<char> {
    match title {
        Some(t) => "Playing **\""@ + t + "\"**"@,
        None => "Playing **\""@ + "<UNKNOWN>"@ + "\"**"@,
    }
}

/// Builds the reply announcing the track now playing.
pub fn play_reply(title: Option<&str>) -> (r: String)
    ensures
        r@ == spec_play_reply(
            match title {
                Some(t) => Some(t@),
                None => None,
            },
        ),
{
    let mut s = String::from_str("Playing **\"");
    match title {
        Some(t) => s.append(t),
        None => s.append("<UNKNOWN>"),
    }
    s.append("\"**");
    s
}

/// The confirmation of an enqueued track; a failed lookup confirms
/// nothing, and the caller sends no message.
pub open spec fn spec_added_reply(title: Option<Seq<char>>) -> Seq<char> {
    match title {
        Some(t) => "**\""@ + t + "\"** added !"@,
        None => Seq::empty(),
    }
}

/// Builds the confirmation of an enqueued track.
pub fn added_reply(title: Option<&str>) -> (r: String)
    ensures
        r@ == spec_added_reply(
            match title {
                Some(t) => Some(t@),
                None => None,
            },
        ),
{
    match title {
        Some(t) => {
            let mut s = String::from_str("**\"");
            s.append(t);
            s.append("\"** added !");
            s
        },
        None => String::new(),
    }
}

/// One line of the queue listing: the one-based position and the
/// title.
pub open spec fn spec_list_entry(i: nat, title: Seq<char>) -> Seq<char> {
    "*"@ + crate::text::spec_u64_dec(i) + "* - "@ + title
}

/// Builds one line of the queue listing.
pub fn list_entry(i: u64, title: &str) -> (r: String)
    ensures
        r@ == spec_list_entry(i as nat, title@),
{
    let mut s = String::from_str("*");
    let d = crate::text::u64_dec(i);
    let ds = string_from_chars(&d);
    s.append(ds.as_str());
    s.append("* - ");
    s.append(title);
    s
}

// ---------------------------------------------------------------------------
// Elapsed time.
// ---------------------------------------------------------------------------
/// A second count written as hours, minutes and seconds.
pub open spec fn spec_hms(t: nat) -> Seq<char> {
    crate::text::spec_u64_dec((t / 60) / 60) + "H:"@ + crate::text::spec_u64_dec((t / 60) % 60)
        + "m:"@ + crate::text::spec_u64_dec(t % 60) + "s"@
}

/// The elapsed-over-total reply, in backticks so chat clients keep the
/// spacing.
pub open spec fn spec_time_reply(elapsed: nat, total: nat) -> Seq<char> {
    "`"@ + spec_hms(elapsed) + "/"@ + spec_hms(total) + "`"@
}

fn hms(t: u64) -> (r: String)
    ensures
        r@ == spec_hms(t as nat),
{
    let h = (t / 60) / 60;
    let m = (t / 60) % 60;
    let sec = t % 60;
    let mut s = string_from_chars(&crate::text::u64_dec(h));
    s.append("H:");
    let ms = string_from_chars(&crate::text::u64_dec(m));
    s.append(ms.as_str());
    s.append("m:");
    let ss = string_from_chars(&crate::text::u64_dec(sec));
    s.append(ss.as_str());
    s.append("s");
    s
}

/// Builds the elapsed-over-total time reply.
pub fn time_reply(elapsed: u64, total: u64) -> (r: String)
    ensures
        r@ == spec_time_reply(elapsed as nat, total as nat),
{
    let mut s = String::from_str("`");
    let e = hms(elapsed);
    s.append(e.as_str());
    s.append("/");
    let t = hms(total);
    s.append(t.as_str());
    s.append("`");
    s
}

// ---------------------------------------------------------------------------
// Preset radio streams.
// ---------------------------------------------------------------------------
/// The named preset streams; each maps to a fixed address, a display
/// title and a cover image.
#[derive(Clone, Copy, Debug, PartialEq, Eq, Structural)]
pub enum RadioPreset {
    Zu,
    Virgin,
    House24,
    Clubbers,
    UndergroundVibe,
    DanceFm,
    DeepHouse,
}

/// The preset a command selects, if it is a preset command.
pub fn preset_for(c: Command) -> (r: Option<RadioPreset>)
    ensures
        r == (match c {
            Command::RadioZu => Some(RadioPreset::Zu),
            Command::RadioVirgin => Some(RadioPreset::Virgin),
            Command::Radio24House => Some(RadioPreset::House24),
            Command::RadioClubbers => Some(RadioPreset::Clubbers),
            Command::RadioUv => Some(RadioPreset::UndergroundVibe),
            Command::RadioHouse => Some(RadioPreset::DeepHouse),
            Command::RadioDanceFm => Some(RadioPreset::DanceFm),
            _ => None::<RadioPreset>,
        }),
{
    match c {
        Command::RadioZu => Some(RadioPreset::Zu),
        Command::RadioVirgin => Some(RadioPreset::Virgin),
        Command::Radio24House => Some(RadioPreset::House24),
        Command::RadioClubbers => Some(RadioPreset::Clubbers),
        Command::RadioUv => Some(RadioPreset::UndergroundVibe),
        Command::RadioHouse => Some(RadioPreset::DeepHouse),
        Command::RadioDanceFm => Some(RadioPreset::DanceFm),
        _ => None,
    }
}

/// The stream address of a preset.
pub open spec fn spec_preset_stream(p: RadioPreset) -> Seq<char> {
    match p {
        RadioPreset::Zu => "https://live4ro.antenaplay.ro/radiozu/radiozu-48000.m3u8"@,
        RadioPreset::Virgin => "https://astreaming.edi.ro:8443/VirginRadio_aac"@,
        RadioPreset::House24 => "https://24houseradio-adradio.radioca.st/128"@,
        RadioPreset::Clubbers => "https://s3.slotex.pl/shoutcast/7300/stream?sid=1"@,
        RadioPreset::UndergroundVibe => "https://stream-21.zeno.fm/s98kga59qnruv?zs=y9vZRej5RV69g4Ld8fD7QQ"@,
        RadioPreset::DanceFm => "https://edge126.rcs-rds.ro/profm/dancefm.mp3"@,
        RadioPreset::DeepHouse => "https://deephouseradio.radioca.st/deep?type=http&nocache=16"@,
    }
}

/// The stream address of a preset.
pub fn preset_stream(p: RadioPreset) -> (r: String)
    ensures
        r@ == spec_preset_stream(p),
{
    match p {
        RadioPreset::Zu => String::from_str(
            "https://live4ro.antenaplay.ro/radiozu/radiozu-48000.m3u8",
        ),
        RadioPreset::Virgin => String::from_str("https://astreaming.edi.ro:8443/VirginRadio_aac"),
        RadioPreset::House24 => String::from_str("https://24houseradio-adradio.radioca.st/128"),
        RadioPreset::Clubbers => String::from_str("https://s3.slotex.pl/shoutcast/7300/stream?sid=1"),
        RadioPreset::UndergroundVibe => String::from_str(
            "https://stream-21.zeno.fm/s98kga59qnruv?zs=y9vZRej5RV69g4Ld8fD7QQ",
        ),
        RadioPreset::DanceFm => String::from_str("https://edge126.rcs-rds.ro/profm/dancefm.mp3"),
        RadioPreset::DeepHouse => String::from_str(
            "https://deephouseradio.radioca.st/deep?type=http&nocache=16",
        ),
    }
}

/// The display title of a preset.
pub open spec fn spec_preset_title(p: RadioPreset) -> Seq<char> {
    match p {
        RadioPreset::Zu => "RadioZU Romania"@,
        RadioPreset::Virgin => "Virgin Radio Romania"@,
        RadioPreset::House24 => "Radio 24 House"@,
        RadioPreset::Clubbers => "Radio Clubbers"@,
        RadioPreset::UndergroundVibe => "Radio Underground Vibe"@,
        RadioPreset::DanceFm => "DanceFM.RO"@,
        RadioPreset::DeepHouse => "Radio House Santa Monica"@,
    }
}

/// The display title of a preset.
pub fn preset_title(p: RadioPreset) -> (r: String)
    ensures
        r@ == spec_preset_title(p),
{
    match p {
        RadioPreset::Zu => String::from_str("RadioZU Romania"),
        RadioPreset::Virgin => String::from_str("Virgin Radio Romania"),
        RadioPreset::House24 => String::from_str("Radio 24 House"),
        RadioPreset::Clubbers => String::from_str("Radio Clubbers"),
        RadioPreset::UndergroundVibe => String::from_str("Radio Underground Vibe"),
        RadioPreset::DanceFm => String::from_str("DanceFM.RO"),
        RadioPreset::DeepHouse => String::from_str("Radio House Santa Monica"),
    }
}

/// The cover image shown with a preset.
pub open spec fn spec_preset_image(p: RadioPreset) -> Seq<char> {
    match p {
        RadioPreset::Zu => "https://static.tuneyou.com/images/logos/500_500/33/3133/RadioZU.jpg"@,
        RadioPreset::Virgin => "https://virginradio.ro/wp-content/uploads/2019/06/VR_ROMANIA_WHITE-STAR-LOGO_RGB_ONLINE_1600x1600.png"@,
        _ => "https://cdn2.vectorstock.com/i/1000x1000/01/16/radio-music-neon-logo-night-neon-vector-21420116.jpg"@,
    }
}

/// The cover image shown with a preset.
pub fn preset_image(p: RadioPreset) -> (r: String)
    ensures
        r@ == spec_preset_image(p),
{
    match p {
        RadioPreset::Zu => String::from_str(
            "https://static.tuneyou.com/images/logos/500_500/33/3133/RadioZU.jpg",
        ),
        RadioPreset::Virgin => String::from_str(
            "https://virginradio.ro/wp-content/uploads/2019/06/VR_ROMANIA_WHITE-STAR-LOGO_RGB_ONLINE_1600x1600.png",
        ),
        _ => String::from_str(
            "https://cdn2.vectorstock.com/i/1000x1000/01/16/radio-music-neon-logo-night-neon-vector-21420116.jpg",
        ),
    }
}

// ---------------------------------------------------------------------------
// The transcoder invocation and the token check.
// ---------------------------------------------------------------------------
/// The argument list handed to the audio transcoder: the stream
/// address in, two-channel 16-bit PCM at 48 kHz out, on its standard
/// output.
pub fn transcoder_args(url: &str) -> (r: Vec<String>)
    ensures
        r@.len() == 11,
        r@[0]@ == "-i"@,
        r@[1]@ == url@,
        r@[2]@ == "-f"@,
        r@[3]@ == "wav"@,
        r@[4]@ == "-ac"@,
        r@[5]@ == "2"@,
        r@[6]@ == "-acodec"@,
        r@[7]@ == "pcm_s16le"@,
        r@[8]@ == "-ar"@,
        r@[9]@ == "48000"@,
        r@[10]@ == "-"@,
{
    let mut v: Vec<String> = Vec::new();
    v.push(String::from_str("-i"));
    v.push(String::from_str(url));
    v.push(String::from_str("-f"));
    v.push(String::from_str("wav"));
    v.push(String::from_str("-ac"));
    v.push(String::from_str("2"));
    v.push(String::from_str("-acodec"));
    v.push(String::from_str("pcm_s16le"));
    v.push(String::from_str("-ar"));
    v.push(String::from_str("48000"));
    v.push(String::from_str("-"));
    v
}

/// Whether a gateway token is long enough to be worth trying; a
/// shorter one ends the process at startup.
pub fn token_is_valid(token: &str) -> (r: bool)
    ensures
        r == (token@.len() >= 30),
{
    token.unicode_len() >= 30
}

} // verus!
