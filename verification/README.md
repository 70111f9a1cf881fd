# chat_prompt

The prompt of a chat command line, verified with Verus.

- `commands`: the slash commands, always sorted, and what completes them.
- `words`: the word at the cursor.
- `completion`: the steps by which the tab key finds commands, prompts or paths.
- `history`, `hint`: the text offered behind the cursor.
- `validate`: when the enter key ends an input.
- `highlight`: the colors of the prompt.
- `helper`, `editor`, `settings`: how all this is put into a line editor.
- `text`: prefixes, byte offsets, order and numbers.

The library decides; it reads no file and waits for nothing. `app/` holds the line editor itself:
rustyline's traits, the channels to the keeper of the prompts, and the terminal.
