# Usage meter

A tray meter: a ring for the session limit, and a popup with the session and weekly limits, the
tokens and costs of the last seven and thirty days, and the organization's API spend since the month
began.

- `src/` is the library, verified with Verus. It holds every decision and every computation on
  integers and texts.
- `tests/` runs the library on concrete values.
- `app/` is the program around it: windows, timers, files, the network, the keychain, and what
  computes with floating-point numbers (the sum of the cost report's amounts, the drawing of the ring,
  the place of the popup).

The tooltip shows the product name of the bundle while no limits are known. On macOS the variable
`CLAUDE_KEYCHAIN_SERVICE` names the keychain item that holds the credentials.

## Numbers

The library computes with integers. A percentage is held by the bits of its single-precision number,
and what is said of it (its color, its rounding, its range) is said of the number that the bits stand
for. Prices are exact decimals, so costs are exact counts of a ten-billionth of a dollar. An estimate
at the blended rate is kept as a fraction. `app/` turns all of these into floating-point numbers to
show them.

## What is promised

- **Credentials.** A renewal posts the stored refresh token and no other, ends with the fresh
  credentials whatever becomes of the store, never overwrites another writer's renewal, and leaves
  every field that it does not set as it was. What it writes is what the next reading gives back,
  where every number of the document is an integer; with other numbers the credentials come back
  where the text can be read. The file holds either the old text or the new one, never a part. A
  query of the limits renews at most once, repeats at most once, and only after its token was
  rejected.
- **Local figures.** Every dated entry counts once, under its local date; of entries with the same
  key the first counts, across all files. Entries from before the seven days do not count, whatever
  file they are in. Bad lines are skipped. The seven days together have no more tokens than the
  thirty. A second scan of unchanged files reads none of them again and changes nothing.
- **Prices.** The first row whose name occurs in a model's name counts.
- **Spend.** Every page names the next one, and no more than fifty are asked for. An admin key that
  was set is loaded without the white space around it, and a blank one clears it.
- **Refreshes.** After a failure the last good figures stay and are marked as stale. The icon is drawn
  anew only if it changes; the windows get the figures every time.
- **Popup.** It is hidden when it is dismissed, let go or loses the focus, and otherwise only when
  the grace period ends while nothing holds it open.

The proof functions whose names begin with `law_` state these.
