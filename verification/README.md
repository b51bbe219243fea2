# osu_mania

The judging and scoring rules of an osu!mania-style rhythm game, verified
with Verus.

- `src/difficulty.rs`: the judgements (`HitAccuracy`), their points and bonus
  values, and how a hold note is judged from its press and its release.
- `src/score.rs`: the tallies of a play (hits, points, bonus values, combos),
  specified over the sequence of judgements pushed.
- `src/hitline.rs`: the notes split into key columns and the state machine
  that decides what a press, a release or the passing of time does to them.
- `src/timeline.rs`: the walk through the timing points of a beatmap.
- `src/time.rs`: milliseconds of a time span.

`app/` is the game itself: it reads the beatmap, opens the window and the
audio output, and does the floating-point parts (timing windows, delays,
key columns from x positions, the bonus gauge and the final score).
