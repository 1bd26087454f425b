use voicebot::commands::{
    added_reply, fixed_reply, join_failed_reply, joined_reply, list_entry, parse_command,
    play_reply, preset_for, preset_image, preset_stream, preset_title, request_text, time_reply,
    token_is_valid, transcoder_args, Command, RadioPreset,
};
use voicebot::text::substring;

#[test]
fn known_commands_are_recognized() {
    assert_eq!(parse_command("!join"), Some(Command::Join));
    assert_eq!(parse_command("!leave"), Some(Command::Leave));
    assert_eq!(parse_command("!play lofi hip hop"), Some(Command::Play));
    assert_eq!(parse_command("!add a song"), Some(Command::Add));
    assert_eq!(parse_command("!list"), Some(Command::List));
    assert_eq!(parse_command("!pause"), Some(Command::Pause));
    assert_eq!(parse_command("!stop"), Some(Command::Stop));
    assert_eq!(parse_command("!time"), Some(Command::Time));
    assert_eq!(parse_command("!desc"), Some(Command::Desc));
    assert_eq!(parse_command("!volume 5"), Some(Command::Volume));
    assert_eq!(parse_command("!help"), Some(Command::Help));
    assert_eq!(parse_command("!radiolist"), Some(Command::RadioList));
    assert_eq!(parse_command("!repeat"), Some(Command::Repeat));
    assert_eq!(parse_command("!radiozu"), Some(Command::RadioZu));
    assert_eq!(parse_command("!radiovirgin"), Some(Command::RadioVirgin));
    assert_eq!(parse_command("!radio24house"), Some(Command::Radio24House));
    assert_eq!(parse_command("!radioclubbers"), Some(Command::RadioClubbers));
    assert_eq!(parse_command("!radiouv"), Some(Command::RadioUv));
    assert_eq!(parse_command("!radiohouse"), Some(Command::RadioHouse));
    assert_eq!(parse_command("!radiodancefm"), Some(Command::RadioDanceFm));
}

#[test]
fn unknown_or_unprefixed_messages_are_ignored() {
    assert_eq!(parse_command("!unknown"), None);
    assert_eq!(parse_command("hello"), None);
    assert_eq!(parse_command(""), None);
    assert_eq!(parse_command("!playx"), None);
}

#[test]
fn request_text_takes_everything_after_the_command_word() {
    assert_eq!(request_text("!play lofi hip hop"), "lofi+hip+hop");
    assert_eq!(request_text("!play  spaced  words "), "spaced++words");
    assert_eq!(request_text("!play"), "");
    assert_eq!(request_text("!play https://youtu.be/abc"), "https://youtu.be/abc");
}

#[test]
fn replies_read_exactly_as_specified() {
    assert_eq!(fixed_reply("Left the channel"), "Left the channel");
    assert_eq!(joined_reply(42), "Joined <#42>!");
    assert_eq!(
        join_failed_reply(42, "Dropped"),
        "Failed to join <#42>! Why: Dropped"
    );
    assert_eq!(play_reply(Some("Tune")), "Playing **\"Tune\"**");
    assert_eq!(play_reply(None), "Playing **\"<UNKNOWN>\"**");
    assert_eq!(added_reply(Some("Tune")), "**\"Tune\"** added !");
    assert_eq!(added_reply(None), "");
    assert_eq!(list_entry(1, "Song"), "*1* - Song");
    assert_eq!(list_entry(12, "Other"), "*12* - Other");
}

#[test]
fn elapsed_time_formats_as_hours_minutes_seconds() {
    assert_eq!(time_reply(3661, 7322), "`1H:1m:1s/2H:2m:2s`");
    assert_eq!(time_reply(0, 0), "`0H:0m:0s/0H:0m:0s`");
    assert_eq!(time_reply(59, 3600), "`0H:0m:59s/1H:0m:0s`");
}

#[test]
fn presets_map_to_their_streams() {
    assert_eq!(preset_for(Command::RadioZu), Some(RadioPreset::Zu));
    assert_eq!(preset_for(Command::Play), None);
    assert_eq!(
        preset_stream(RadioPreset::Zu),
        "https://live4ro.antenaplay.ro/radiozu/radiozu-48000.m3u8"
    );
    assert_eq!(
        preset_stream(RadioPreset::Virgin),
        "https://astreaming.edi.ro:8443/VirginRadio_aac"
    );
    assert_eq!(preset_title(RadioPreset::DeepHouse), "Radio House Santa Monica");
    assert!(preset_image(RadioPreset::Zu).contains("RadioZU"));
}

#[test]
fn transcoder_is_invoked_for_pcm_output() {
    let args = transcoder_args("http://stream");
    assert_eq!(
        args,
        vec![
            "-i",
            "http://stream",
            "-f",
            "wav",
            "-ac",
            "2",
            "-acodec",
            "pcm_s16le",
            "-ar",
            "48000",
            "-"
        ]
    );
}

#[test]
fn short_tokens_are_rejected_at_startup() {
    assert!(!token_is_valid("short"));
    assert!(token_is_valid("012345678901234567890123456789"));
}

#[test]
fn substring_counts_characters_and_saturates() {
    assert_eq!(substring("hello", 1, 3), "ell");
    assert_eq!(substring("hello", 0, 99), "hello");
    assert_eq!(substring("hello", 99, 2), "");
    assert_eq!(substring("héllo", 1, 2), "él");
}
