# instocr

A Windows tray tool for instant OCR of a screen rectangle, with its text,
input and image logic verified by Verus.

- `src/` is the verified library: hotkey text, the settings file, decimal
  numbers, the OCR language list and its selection, the layout of recognized
  text, cropping and padding of BGRA pixel buffers, the command lines, the
  tray program's menu and hotkey commands, the selection overlay's drag state,
  the OCR worker's protocol and UTF-16 strings for the Windows API. Every
  public function states its result in `ensures` over spec functions;
  properties that span several calls are public proof functions (`lemma_*`).
- `tests/` runs the library on concrete values.
- `app/` is the Windows program around the library: windows, the tray icon,
  screen capture, the Windows OCR engine, the clipboard, the registry, and
  the floating-point image scaling and font rendering.
